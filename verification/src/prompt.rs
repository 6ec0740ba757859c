//! The prompt builder: the file mapping, put into its textual form, is set
//! into the instruction for the kind of document asked for.

use vstd::prelude::*;
use vstd::string::StringExecFns;
use crate::error::{text_or_failure, Failure, FailureView};
use crate::file_map::{ordered_by_path, pairs_of, FileEntry, FileMap};

verus! {

/// The kind of document to generate.
#[derive(Clone, Copy, Debug, PartialEq, Eq, Structural)]
pub enum DocumentType {
    /// A README for the project's repository.
    Readme,
    /// A blog post about the project.
    Blog,
    /// A scholarly write-up of the project.
    Writeup,
}

impl DocumentType {
    /// The kind that the three flags select, if exactly one of them is set.
    pub open spec fn selected(readme: bool, blog: bool, writeup: bool) -> Option<DocumentType> {
        match (readme, blog, writeup) {
            (true, false, false) => Some(DocumentType::Readme),
            (false, true, false) => Some(DocumentType::Blog),
            (false, false, true) => Some(DocumentType::Writeup),
            _ => None,
        }
    }

    /// The kind of document that the three mutually exclusive flags select;
    /// `None` unless exactly one of them is set.
    pub fn from_flags(readme: bool, blog: bool, writeup: bool) -> (kind: Option<DocumentType>)
        ensures
            kind == Self::selected(readme, blog, writeup),
    {
        if readme {
            if blog || writeup {
                None
            } else {
                Some(DocumentType::Readme)
            }
        } else if blog {
            if writeup {
                None
            } else {
                Some(DocumentType::Blog)
            }
        } else if writeup {
            Some(DocumentType::Writeup)
        } else {
            None
        }
    }
}

/// The sentence that tells the model to answer with the document alone and
/// to leave out prefatory remarks, in the wording for the kind of document.
pub open spec fn answer_alone(kind: DocumentType) -> Seq<char> {
    match kind {
        DocumentType::Readme => "Answer with the README alone, without any prefatory remarks. "@,
        DocumentType::Blog => "Answer with the blog post alone, without any prefatory remarks. "@,
        DocumentType::Writeup => "Answer with the write\u{2011}up alone, without any prefatory remarks. "@,
    }
}

/// The sentence that says what document to write, up to the place of the
/// listing.
pub open spec fn task(kind: DocumentType) -> Seq<char> {
    match kind {
        DocumentType::Readme =>
            "Generate a README.md file with a but not limited to a brief overview and description of the project, a key rundown of features and a usage guide suitable for a GitHub repository using these files:\n\n"@,
        DocumentType::Blog =>
            "Generate a blog post in Markdown with a but not limited to a brief overview and description of the project, a key rundown of features and a usage guide using these files:\n\n"@,
        DocumentType::Writeup =>
            "Compose a scholarly write\u{2011}up in Markdown with a but not limited to a brief overview and description of the project, a key rundown of features and a usage guide using these files:\n\n"@,
    }
}

/// The instruction for a kind of document, up to the place of the listing:
/// the model is told to answer with the document alone, then what document to
/// write.
pub open spec fn instruction(kind: DocumentType) -> Seq<char> {
    answer_alone(kind) + task(kind)
}

/// The prompt for a kind of document and a listing of the files: the
/// instruction, the listing, and a closing full stop.
pub open spec fn prompt_text(kind: DocumentType, listing: Seq<char>) -> Seq<char> {
    instruction(kind) + listing + "."@
}

/// Sets `listing`, the textual form of the files, into the instruction for
/// `kind`.
pub fn compose(kind: DocumentType, listing: &str) -> (prompt: String)
    ensures
        prompt@ == prompt_text(kind, listing@),
{
    let (rule, task) = match kind {
        DocumentType::Readme => (
            "Answer with the README alone, without any prefatory remarks. ",
            "Generate a README.md file with a but not limited to a brief overview and description of the project, a key rundown of features and a usage guide suitable for a GitHub repository using these files:\n\n",
        ),
        DocumentType::Blog => (
            "Answer with the blog post alone, without any prefatory remarks. ",
            "Generate a blog post in Markdown with a but not limited to a brief overview and description of the project, a key rundown of features and a usage guide using these files:\n\n",
        ),
        DocumentType::Writeup => (
            "Answer with the write\u{2011}up alone, without any prefatory remarks. ",
            "Compose a scholarly write\u{2011}up in Markdown with a but not limited to a brief overview and description of the project, a key rundown of features and a usage guide using these files:\n\n",
        ),
    };
    let mut prompt = String::from_str(rule);
    prompt.append(task);
    prompt.append(listing);
    prompt.append(".");
    assert(prompt@ =~= prompt_text(kind, listing@));
    prompt
}

/// The error with which the serializer fails.
#[verifier::external_type_specification]
#[verifier::external_body]
pub struct ExJsonError(serde_json::Error);

/// What serializing `listing` as a JSON object gives: the text of the object
/// that has, for each pair in order, a member named by the pair's path whose
/// value is the pair's content; or `None` if the serializer fails.
pub uninterp spec fn json_object_text(listing: Seq<(Seq<char>, Seq<char>)>) -> Option<Seq<char>>;

/// Serializes the entries as one JSON object from path to content.
///
/// Trusted: hands the entries, as a map in the order in which they stand, to
/// `serde_json::to_string`. Whether that call fails and the text it gives
/// depend on the entries alone; the contract only names the outcome.
#[verifier::external_body]
fn to_json_object(entries: &Vec<FileEntry>) -> (text: Result<String, serde_json::Error>)
    requires
        ordered_by_path(pairs_of(entries@)),
    ensures
        match text {
            Ok(json) => json_object_text(pairs_of(entries@)) == Some(json@),
            Err(_) => json_object_text(pairs_of(entries@)) is None,
        },
{
    let object: std::collections::BTreeMap<&str, &str> = entries.iter().map(
        |entry| (entry.path.as_str(), entry.content.as_str()),
    ).collect();
    serde_json::to_string(&object)
}

/// What building the prompt for `kind` from a listing of the files gives: the
/// prompt with the serialized listing set in; or, if the listing cannot be
/// serialized, the failure `Serialization`.
pub open spec fn prompt_for(kind: DocumentType, listing: Seq<(Seq<char>, Seq<char>)>) -> Result<
    Seq<char>,
    FailureView,
> {
    match json_object_text(listing) {
        Some(json) => Ok(prompt_text(kind, json)),
        None => Err(FailureView::Serialization),
    }
}

/// Builds the prompt for `kind` from the collected files.
pub fn build_prompt(files: &FileMap, kind: DocumentType) -> (prompt: Result<String, Failure>)
    ensures
        text_or_failure(prompt) == prompt_for(kind, files.listing()),
{
    match to_json_object(files.entries()) {
        Ok(listing) => Ok(compose(kind, listing.as_str())),
        Err(_) => Err(Failure::Serialization),
    }
}

/// The prompts for the three kinds of document differ, whatever the listing:
/// each names its own kind of document where it tells the model to answer
/// with the document alone.
pub proof fn lemma_prompts_differ(listing: Seq<char>)
    ensures
        prompt_text(DocumentType::Readme, listing) != prompt_text(DocumentType::Blog, listing),
        prompt_text(DocumentType::Readme, listing) != prompt_text(DocumentType::Writeup, listing),
        prompt_text(DocumentType::Blog, listing) != prompt_text(DocumentType::Writeup, listing),
{
    reveal_strlit("Answer with the README alone, without any prefatory remarks. ");
    reveal_strlit("Answer with the blog post alone, without any prefatory remarks. ");
    reveal_strlit("Answer with the write\u{2011}up alone, without any prefatory remarks. ");
    let readme = prompt_text(DocumentType::Readme, listing);
    let blog = prompt_text(DocumentType::Blog, listing);
    let writeup = prompt_text(DocumentType::Writeup, listing);
    assert(readme[16] == 'R');
    assert(blog[16] == 'b');
    assert(writeup[16] == 'w');
}

/// Every prompt begins by telling the model to answer with the document
/// alone, leaving out prefatory remarks.
pub proof fn lemma_prompt_asks_for_document_alone(kind: DocumentType, listing: Seq<char>)
    ensures
        answer_alone(kind).len() <= prompt_text(kind, listing).len(),
        prompt_text(kind, listing).take(answer_alone(kind).len() as int) == answer_alone(kind),
{
}

/// The prompt holds the whole listing: it stands, unchanged, right after the
/// instruction and before the closing full stop.
pub proof fn lemma_prompt_holds_listing(kind: DocumentType, listing: Seq<char>)
    ensures
        prompt_text(kind, listing).len() == instruction(kind).len() + listing.len() + 1,
        prompt_text(kind, listing).subrange(
            instruction(kind).len() as int,
            (instruction(kind).len() + listing.len()) as int,
        ) == listing,
{
    reveal_strlit(".");
}

/// For the same files, the three kinds of document give three different
/// prompts, and each of them holds the whole serialized listing.
pub proof fn lemma_same_files_three_prompts(
    listing: Seq<(Seq<char>, Seq<char>)>,
    json: Seq<char>,
)
    requires
        json_object_text(listing) == Some(json),
    ensures
        prompt_for(DocumentType::Readme, listing) != prompt_for(DocumentType::Blog, listing),
        prompt_for(DocumentType::Readme, listing) != prompt_for(DocumentType::Writeup, listing),
        prompt_for(DocumentType::Blog, listing) != prompt_for(DocumentType::Writeup, listing),
        forall|kind: DocumentType|
            #![trigger prompt_for(kind, listing)]
            prompt_for(kind, listing) matches Ok(prompt) && prompt.subrange(
                instruction(kind).len() as int,
                (instruction(kind).len() + json.len()) as int,
            ) == json,
{
    lemma_prompts_differ(json);
    assert forall|kind: DocumentType|
        #![trigger prompt_for(kind, listing)]
        prompt_for(kind, listing) matches Ok(prompt) && prompt.subrange(
            instruction(kind).len() as int,
            (instruction(kind).len() + json.len()) as int,
        ) == json by {
        lemma_prompt_holds_listing(kind, json);
    }
}

} // verus!
