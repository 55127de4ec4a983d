//! The records of the state root (the cached releases, the installed
//! versions, the selected version) and the vendor's release feed.

use vstd::prelude::*;
use crate::state::{first_of, tag_view};
use crate::text::{lines, lines_of, same_text, slice_of};
use crate::utils::is_digit;

verus! {

/// The releases that the cache file `text` lists, newest first.
pub fn cached_releases(text: &str) -> (r: Vec<String>)
    ensures
        r.deep_view() == lines_of(text@),
{
    lines(text)
}

/// The versions that the file of installed versions `text` lists.
pub fn installed(text: &str) -> (r: Vec<String>)
    ensures
        r.deep_view() == lines_of(text@),
{
    lines(text)
}

/// The version that a record of the selected version names: its first
/// line, unless there is none or it is empty.
pub open spec fn selected_in(text: Seq<char>) -> Option<Seq<char>> {
    let all = lines_of(text);
    if all.len() == 0 || all[0].len() == 0 {
        None
    } else {
        Some(all[0])
    }
}

/// The selected version that the record `text` names, if it names one.
/// That none is selected yet is no error.
pub fn current_version(text: &str) -> (r: Option<String>)
    ensures
        tag_view(r) == selected_in(text@),
{
    let all = lines(text);
    if all.len() == 0 {
        return None;
    }
    assert(all.deep_view()[0] == all@[0]@);
    if all[0].as_str().is_empty() {
        return None;
    }
    Some(all[0].clone())
}

/// Whether `in_version` is among the installed versions.
pub fn is_installed(in_version: &str, installed: &Vec<String>) -> (r: bool)
    ensures
        r == installed.deep_view().contains(in_version@),
{
    let mut i: usize = 0;
    while i < installed.len()
        invariant
            i <= installed.len(),
            forall|k: int| 0 <= k < i ==> installed.deep_view()[k] != in_version@,
        decreases installed.len() - i,
    {
        assert(installed.deep_view()[i as int] == installed@[i as int]@);
        if same_text(installed[i].as_str(), in_version) {
            return true;
        }
        i += 1;
    }
    false
}

/// What is added to the file of installed versions when `install` is
/// recorded: its line.
pub fn set_installed(install: &str) -> (r: String)
    ensures
        r@ == install@.push('\n'),
{
    let mut r = install.to_string();
    proof {
        reveal_strlit("\n");
        assert("\n"@ =~= seq!['\n']);
    }
    r.append("\n");
    assert(r@ =~= install@.push('\n'));
    r
}

/// What the record of the selected version holds once `install` is
/// selected: the version and nothing else.
pub fn set_current_install(install: &str) -> (r: String)
    ensures
        r@ == install@,
{
    install.to_string()
}

/// A parsed JSON document of the `json` crate.
#[verifier::external_type_specification]
#[verifier::external_body]
pub struct ExJsonValue(json::JsonValue);

/// The `json` crate's reason why a text is no JSON document.
#[verifier::external_type_specification]
#[verifier::external_body]
pub struct ExJsonError(json::Error);

/// The document that `json::parse` finds in `text`, if it finds one. It
/// is asked only of a text that holds no number too long for it.
pub uninterp spec fn document(text: Seq<char>) -> Option<json::JsonValue>;

/// For each member of the array `doc`, in order, the text that it holds
/// under `key`, if it is an object that holds a text there. Empty where
/// `doc` is no array.
pub uninterp spec fn member_fields(doc: json::JsonValue, key: Seq<char>) -> Seq<Option<Seq<char>>>;

/// The text that the object `doc` holds under `key`, if it is an object
/// that holds a text there.
pub uninterp spec fn own_field(doc: json::JsonValue, key: Seq<char>) -> Option<Seq<char>>;

/// As many digits in a row as make a number too long for the `json`
/// crate: it counts the digits after a decimal point in sixteen bits.
pub const DIGIT_LIMIT: usize = 32768;

/// The `count` characters of `s` from `start` on are all digits.
pub open spec fn digits_at(s: Seq<char>, start: int, count: int) -> bool {
    forall|k: int| start <= k < start + count ==> is_digit(#[trigger] s[k])
}

/// `s` holds no number of `DIGIT_LIMIT` digits or more: wherever that
/// many characters stand in a row, one of them is no digit.
pub open spec fn short_numbers(s: Seq<char>) -> bool {
    forall|start: int|
        0 <= start && start + DIGIT_LIMIT <= s.len() ==> !#[trigger] digits_at(
            s,
            start,
            DIGIT_LIMIT as int,
        )
}

/// Tells whether `text` holds no number of `DIGIT_LIMIT` digits or more.
pub fn has_short_numbers(text: &str) -> (r: bool)
    ensures
        r == short_numbers(text@),
{
    let mut run: usize = 0;
    for c in it: text.chars()
        invariant
            it.seq() == text@,
            run < DIGIT_LIMIT,
            run <= it.index(),
            digits_at(text@, it.index() - run, run as int),
            run < it.index() ==> !is_digit(text@[it.index() - run - 1]),
            forall|start: int|
                0 <= start && start + DIGIT_LIMIT <= it.index() ==> !#[trigger] digits_at(
                    text@,
                    start,
                    DIGIT_LIMIT as int,
                ),
    {
        let ghost at = it.index() as int;
        if c >= '0' && c <= '9' {
            run += 1;
            if run == DIGIT_LIMIT {
                assert(digits_at(text@, at + 1 - DIGIT_LIMIT, DIGIT_LIMIT as int));
                return false;
            }
            assert forall|start: int|
                0 <= start && start + DIGIT_LIMIT <= at + 1 implies !#[trigger] digits_at(
                text@,
                start,
                DIGIT_LIMIT as int,
            ) by {
                if start + DIGIT_LIMIT == at + 1 {
                    assert(!is_digit(text@[at - run]));
                }
            }
        } else {
            run = 0;
            assert forall|start: int|
                0 <= start && start + DIGIT_LIMIT <= at + 1 implies !#[trigger] digits_at(
                text@,
                start,
                DIGIT_LIMIT as int,
            ) by {
                if start + DIGIT_LIMIT == at + 1 {
                    assert(!is_digit(text@[at]));
                }
            }
        }
    }
    true
}

/// Names, present or not, seen as characters.
pub open spec fn names_view(names: Seq<Option<String>>) -> Seq<Option<Seq<char>>> {
    Seq::new(names.len(), |i: int| tag_view(names[i]))
}

/// Calls `json::parse`. The contract claims that the outcome depends on
/// the text alone: the same text gives the same document, or fails. A
/// text with `DIGIT_LIMIT` digits in a row is left out, because the crate
/// counts the digits after a decimal point in sixteen bits and does not
/// look whether the count still fits.
#[verifier::external_body]
fn parse_document(text: &str) -> (r: Result<json::JsonValue, json::Error>)
    requires
        short_numbers(text@),
    ensures
        match r {
            Ok(doc) => document(text@) == Some(doc),
            Err(_) => document(text@) is None,
        },
{
    json::parse(text)
}

/// Walks `JsonValue::members` and reads each member with the crate's
/// index by key and `as_str`. The contract claims that what comes out is
/// a matter of the document and the key alone.
#[verifier::external_body]
fn member_texts(doc: &json::JsonValue, key: &str) -> (r: Vec<Option<String>>)
    ensures
        names_view(r@) == member_fields(*doc, key@),
{
    doc.members().map(|member| member[key].as_str().map(str::to_owned)).collect()
}

/// Reads the document with the crate's index by key and `as_str`. The
/// contract claims that what comes out is a matter of the document and
/// the key alone.
#[verifier::external_body]
fn field_text(doc: &json::JsonValue, key: &str) -> (r: Option<String>)
    ensures
        tag_view(r) == own_field(*doc, key@),
{
    doc[key].as_str().map(str::to_owned)
}

/// Why the release feed gave no answer.
#[derive(Debug, PartialEq, Eq)]
pub enum FeedError {
    /// The server answered with a status other than 200.
    Status(u32),
    /// The answer holds a number of `DIGIT_LIMIT` digits or more, and is
    /// not handed to the `json` crate.
    LongNumber,
    /// The answer is no JSON document.
    Json(json::Error),
    /// The answer names no release.
    NoTag,
}

/// The tag of a release that the vendor names `name`: the name without
/// its first character, the `v` that the vendor puts in front.
pub open spec fn tag_of(name: Seq<char>) -> Seq<char> {
    if name.len() == 0 {
        name
    } else {
        name.skip(1)
    }
}

/// The tags of the names that are present, in order.
pub open spec fn tags_of(names: Seq<Option<Seq<char>>>) -> Seq<Seq<char>>
    decreases names.len(),
{
    if names.len() == 0 {
        Seq::empty()
    } else {
        match names.last() {
            Some(name) => tags_of(names.drop_last()).push(tag_of(name)),
            None => tags_of(names.drop_last()),
        }
    }
}

/// The tag of the release named `name`.
pub fn release_tag(name: &str) -> (r: String)
    ensures
        r@ == tag_of(name@),
{
    let n = name.unicode_len();
    if n == 0 {
        return name.to_string();
    }
    let r = slice_of(name, 1, n);
    assert(r@ =~= name@.skip(1));
    r
}

/// The tags of the releases in `names`, leaving out the entries without
/// a name.
pub fn release_tags(names: &Vec<Option<String>>) -> (r: Vec<String>)
    ensures
        r.deep_view() == tags_of(names_view(names@)),
{
    let mut r: Vec<String> = Vec::new();
    let ghost all = names_view(names@);
    let mut i: usize = 0;
    assert(all.take(0) =~= Seq::<Option<Seq<char>>>::empty());
    assert(r.deep_view() =~= Seq::<Seq<char>>::empty());
    while i < names.len()
        invariant
            i <= names.len(),
            all == names_view(names@),
            r.deep_view() == tags_of(all.take(i as int)),
        decreases names.len() - i,
    {
        proof {
            let next = all.take(i + 1);
            assert(next.drop_last() =~= all.take(i as int));
            assert(next.last() == tag_view(names@[i as int]));
        }
        match &names[i] {
            Some(name) => {
                let tag = release_tag(name.as_str());
                let ghost before = r.deep_view();
                r.push(tag);
                assert(r.deep_view() =~= before.push(tag@));
            },
            None => {},
        }
        i += 1;
    }
    assert(all.take(names.len() as int) =~= all);
    r
}

/// The address that lists the vendor's newest releases.
pub const RELEASES_URL: &'static str =
    "https://api.github.com/repos/Kitware/CMake/releases?per_page=100";

/// The address that names the vendor's latest release.
pub const LATEST_URL: &'static str = "https://api.github.com/repos/Kitware/CMake/releases/latest";

/// The header that asks the feed for its JSON form.
pub const ACCEPT_HEADER: &'static str = "Accept: application/vnd.github.v3+json";

/// The header that tells the feed who asks.
pub const AGENT_HEADER: &'static str = "User-Agent: request";

/// The status of an answer that holds what was asked for.
pub const HTTP_OK: u32 = 200;

/// Tells whether an answer with `status` holds what was asked for: only
/// one with the status 200 does. Any other is a failure of the
/// transport, and its body is not read.
pub fn is_success(status: u32) -> (r: bool)
    ensures
        r == (status == HTTP_OK),
{
    status == HTTP_OK
}

/// As many releases as are kept of the feed's list.
pub const FEED_LIMIT: usize = 100;

/// The first `FEED_LIMIT` of `tags`.
pub open spec fn newest(tags: Seq<Seq<char>>) -> Seq<Seq<char>> {
    if tags.len() <= FEED_LIMIT {
        tags
    } else {
        tags.take(FEED_LIMIT as int)
    }
}

/// What the feed's answer to the request for its newest releases lists:
/// their tags, newest first, a hundred at most.
pub open spec fn listed_releases(status: u32, body: Seq<char>) -> Option<Seq<Seq<char>>> {
    if status != HTTP_OK || !short_numbers(body) {
        None
    } else {
        match document(body) {
            None => None,
            Some(doc) => Some(newest(tags_of(member_fields(doc, "tag_name"@)))),
        }
    }
}

/// The tags of the releases that the feed listed, from the status and the
/// body of its answer.
pub fn releases(status: u32, body: &str) -> (r: Result<Vec<String>, FeedError>)
    ensures
        match r {
            Ok(tags) => listed_releases(status, body@) == Some(tags.deep_view()),
            Err(FeedError::Status(code)) => status != HTTP_OK && code == status,
            Err(FeedError::LongNumber) => status == HTTP_OK && !short_numbers(body@),
            Err(FeedError::Json(_)) => status == HTTP_OK && short_numbers(body@) && document(
                body@,
            ) is None,
            Err(FeedError::NoTag) => false,
        },
{
    if !is_success(status) {
        return Err(FeedError::Status(status));
    }
    if !has_short_numbers(body) {
        return Err(FeedError::LongNumber);
    }
    let doc = match parse_document(body) {
        Ok(doc) => doc,
        Err(error) => {
            return Err(FeedError::Json(error));
        },
    };
    let names = member_texts(&doc, "tag_name");
    let tags = release_tags(&names);
    assert(tags.deep_view().take(tags.len() as int) =~= tags.deep_view());
    Ok(first_of(&tags, FEED_LIMIT))
}

/// What the feed's answer to the request for the latest release names:
/// its tag.
pub open spec fn latest_listed(status: u32, body: Seq<char>) -> Option<Seq<char>> {
    if status != HTTP_OK || !short_numbers(body) {
        None
    } else {
        match document(body) {
            None => None,
            Some(doc) => match own_field(doc, "tag_name"@) {
                None => None,
                Some(name) => Some(tag_of(name)),
            },
        }
    }
}

/// The tag of the latest release, from the status and the body of the
/// feed's answer.
pub fn latest_release(status: u32, body: &str) -> (r: Result<String, FeedError>)
    ensures
        match r {
            Ok(tag) => latest_listed(status, body@) == Some(tag@),
            Err(FeedError::Status(code)) => status != HTTP_OK && code == status,
            Err(FeedError::LongNumber) => status == HTTP_OK && !short_numbers(body@),
            Err(FeedError::Json(_)) => status == HTTP_OK && short_numbers(body@) && document(
                body@,
            ) is None,
            Err(FeedError::NoTag) => status == HTTP_OK && short_numbers(body@) && (document(
                body@,
            ) matches Some(doc) && own_field(doc, "tag_name"@) is None),
        },
{
    if !is_success(status) {
        return Err(FeedError::Status(status));
    }
    if !has_short_numbers(body) {
        return Err(FeedError::LongNumber);
    }
    let doc = match parse_document(body) {
        Ok(doc) => doc,
        Err(error) => {
            return Err(FeedError::Json(error));
        },
    };
    match field_text(&doc, "tag_name") {
        Some(name) => Ok(release_tag(name.as_str())),
        None => Err(FeedError::NoTag),
    }
}

} // verus!
