//! The JSON documents the game reads and writes: comment stripping, parsing
//! into a document of the library's own, and rendering, each behind a trusted
//! item that calls `json_comments` or `serde_json`, and the verified steps
//! around them.
use vstd::prelude::*;
use std::io::Read;
use serde::Serialize;
use vstd::string::StringSliceAdditionalSpecFns;
use crate::text::same_text;
use serde_json::Value;
use serde_json::error::Category;

verus! {

/// A JSON value of `serde_json`, held as it is where the game does not look
/// into it.
#[verifier::external_type_specification]
#[verifier::external_body]
pub struct ExJsonValue(serde_json::Value);

/// Why a JSON document could not be read; the categories of
/// `serde_json::error::Category`.
#[derive(Clone, Copy, Debug, PartialEq, Eq)]
pub enum JsonErrorCategory {
    Io,
    Syntax,
    Data,
    Eof,
}

/// The value of a member of a JSON object: a string, or any other JSON value.
#[derive(Debug, PartialEq)]
pub enum JsonMember {
    Text(String),
    Json(serde_json::Value),
}

/// A JSON document as the game reads it: `null`, an object with its members
/// in order, or any other JSON value.
#[derive(Debug, PartialEq)]
pub enum JsonDocument {
    Null,
    Object(Vec<(String, JsonMember)>),
    Other(serde_json::Value),
}

/// The view of a member's value.
pub enum MemberView {
    Text(Seq<char>),
    Json(serde_json::Value),
}

/// The view of a document.
pub enum DocumentView {
    Null,
    Object(Seq<(Seq<char>, MemberView)>),
    Other(serde_json::Value),
}

impl View for JsonMember {
    type V = MemberView;

    open spec fn view(&self) -> MemberView {
        match self {
            JsonMember::Text(s) => MemberView::Text(s@),
            JsonMember::Json(v) => MemberView::Json(*v),
        }
    }
}

/// The views of the members of an object.
pub open spec fn members_view(e: Seq<(String, JsonMember)>) -> Seq<(Seq<char>, MemberView)> {
    e.map_values(|p: (String, JsonMember)| (p.0@, p.1@))
}

impl View for JsonDocument {
    type V = DocumentView;

    open spec fn view(&self) -> DocumentView {
        match self {
            JsonDocument::Null => DocumentView::Null,
            JsonDocument::Object(e) => DocumentView::Object(members_view(e@)),
            JsonDocument::Other(v) => DocumentView::Other(*v),
        }
    }
}

/// What reading `input` through `json_comments::StripComments` gives: the
/// bytes delivered, in which every comment is turned into spaces, up to the
/// point where it reports invalid data (an unfinished string or comment, or
/// a `/` that opens no comment), and whether it did.
pub uninterp spec fn comments_stripped(input: Seq<u8>) -> (Seq<u8>, bool);

/// Reads `input` through `json_comments::StripComments` byte by byte, as a
/// JSON reader reads it, up to its end or its first error. The contract
/// names the outcome `comments_stripped(input)`; the stripping itself is not
/// written out here.
#[verifier::external_body]
fn strip_comments(input: &[u8]) -> (r: (Vec<u8>, bool))
    ensures
        (r.0@, r.1) == comments_stripped(input@),
{
    let mut out: Vec<u8> = Vec::new();
    for b in json_comments::StripComments::new(input).bytes() {
        match b {
            Ok(b) => out.push(b),
            Err(_) => return (out, true),
        }
    }
    (out, false)
}

/// What `serde_json::from_slice::<serde_json::Value>` makes of `bytes`, as a
/// document: `null`, an object (its members in `serde_json`'s order, string
/// members as text), any other value; or the category of its error.
pub uninterp spec fn json_document(bytes: Seq<u8>) -> Result<DocumentView, JsonErrorCategory>;

/// Parses `bytes` with `serde_json::from_slice` into a `serde_json::Value`
/// and moves it, variant by variant, into a `JsonDocument`; an error is told
/// apart by `serde_json::Error::classify`. The contract names the outcome
/// `json_document(bytes)`.
#[verifier::external_body]
pub(crate) fn parse_json_bytes(bytes: &[u8]) -> (r: Result<JsonDocument, JsonErrorCategory>)
    ensures
        match r {
            Ok(d) => json_document(bytes@) == Ok::<DocumentView, JsonErrorCategory>(d@),
            Err(c) => json_document(bytes@) == Err::<DocumentView, JsonErrorCategory>(c),
        },
{
    match serde_json::from_slice::<Value>(bytes) {
        Ok(Value::Null) => Ok(JsonDocument::Null),
        Ok(Value::Object(m)) => Ok(JsonDocument::Object(m.into_iter().map(|(k, v)| match v {
            Value::String(s) => (k, JsonMember::Text(s)),
            v => (k, JsonMember::Json(v)),
        }).collect())),
        Ok(v) => Ok(JsonDocument::Other(v)),
        Err(e) => Err(match e.classify() {
            Category::Io => JsonErrorCategory::Io,
            Category::Syntax => JsonErrorCategory::Syntax,
            Category::Data => JsonErrorCategory::Data,
            Category::Eof => JsonErrorCategory::Eof,
        }),
    }
}

/// What a JSON reader fed through the comment stripper reports, given what
/// parsing the bytes delivered reports (`None` for success) and whether the
/// stripper failed after them: where it did not, that report; where it did,
/// a syntax or data error met within the delivered bytes, else the I/O error
/// of the stripper, which the parser meets once it reads past them.
pub open spec fn streamed(prefix_outcome: Option<JsonErrorCategory>, failed: bool) -> Option<
    JsonErrorCategory,
> {
    if !failed {
        prefix_outcome
    } else {
        match prefix_outcome {
            Some(JsonErrorCategory::Syntax) => Some(JsonErrorCategory::Syntax),
            Some(JsonErrorCategory::Data) => Some(JsonErrorCategory::Data),
            _ => Some(JsonErrorCategory::Io),
        }
    }
}

/// What a JSON reader fed through the comment stripper reports; see
/// `streamed`.
pub fn streamed_category(prefix_outcome: Option<JsonErrorCategory>, failed: bool) -> (r: Option<
    JsonErrorCategory,
>)
    ensures
        r == streamed(prefix_outcome, failed),
{
    if !failed {
        prefix_outcome
    } else {
        match prefix_outcome {
            Some(JsonErrorCategory::Syntax) => Some(JsonErrorCategory::Syntax),
            Some(JsonErrorCategory::Data) => Some(JsonErrorCategory::Data),
            _ => Some(JsonErrorCategory::Io),
        }
    }
}

/// What reading the JSON document `text` through the comment stripper gives.
pub open spec fn json_document_outcome(text: Seq<u8>) -> Result<DocumentView, JsonErrorCategory> {
    let (prefix, failed) = comments_stripped(text);
    let parsed = json_document(prefix);
    if !failed {
        parsed
    } else {
        match streamed(
            match parsed {
                Ok(_) => None,
                Err(c) => Some(c),
            },
            true,
        ) {
            Some(c) => Err(c),
            None => parsed,
        }
    }
}

/// Strips the comments of the JSON text `text`: the bytes delivered, and
/// whether the stripper failed after them.
pub fn strip_json_comments(text: &str) -> (r: (Vec<u8>, bool))
    ensures
        (r.0@, r.1) == comments_stripped(text.spec_bytes()),
{
    strip_comments(text.as_bytes())
}

/// Reads the JSON document `text`, which may hold comments.
pub fn parse_json_document(text: &str) -> (r: Result<JsonDocument, JsonErrorCategory>)
    ensures
        match r {
            Ok(d) => json_document_outcome(text.spec_bytes()) == Ok::<DocumentView, JsonErrorCategory>(d@),
            Err(c) => json_document_outcome(text.spec_bytes()) == Err::<DocumentView, JsonErrorCategory>(c),
        },
{
    let (prefix, failed) = strip_comments(text.as_bytes());
    let parsed = parse_json_bytes(prefix.as_slice());
    if !failed {
        return parsed;
    }
    let outcome = match &parsed {
        Ok(_) => None,
        Err(c) => Some(*c),
    };
    match streamed_category(outcome, true) {
        Some(c) => Err(c),
        None => parsed,
    }
}

/// The position of the first member named `key`, or -1.
pub open spec fn member_position(e: Seq<(Seq<char>, MemberView)>, key: Seq<char>) -> int
    decreases e.len(),
{
    if e.len() == 0 {
        -1
    } else if e[0].0 == key {
        0
    } else {
        let p = member_position(e.drop_first(), key);
        if p < 0 {
            -1
        } else {
            p + 1
        }
    }
}

proof fn lemma_member_position_skip(e: Seq<(Seq<char>, MemberView)>, key: Seq<char>, i: int)
    requires
        0 <= i <= e.len(),
        forall|j: int| 0 <= j < i ==> (#[trigger] e[j]).0 != key,
    ensures
        member_position(e, key) == if member_position(e.skip(i), key) < 0 {
            -1
        } else {
            member_position(e.skip(i), key) + i
        },
        -1 <= member_position(e, key) < e.len(),
    decreases i,
{
    lemma_member_position_range(e, key);
    if i == 0 {
        assert(e.skip(0) =~= e);
    } else {
        assert(e[0].0 != key);
        assert(e.drop_first().skip(i - 1) =~= e.skip(i));
        assert forall|j: int| 0 <= j < i - 1 implies (#[trigger] e.drop_first()[j]).0 != key by {
            assert(e.drop_first()[j] == e[j + 1]);
        }
        lemma_member_position_skip(e.drop_first(), key, i - 1);
    }
}

proof fn lemma_member_position_range(e: Seq<(Seq<char>, MemberView)>, key: Seq<char>)
    ensures
        -1 <= member_position(e, key) < e.len(),
        member_position(e, key) >= 0 ==> e[member_position(e, key)].0 == key,
    decreases e.len(),
{
    if e.len() > 0 && e[0].0 != key {
        lemma_member_position_range(e.drop_first(), key);
    }
}

/// The position of the first member of `e` named `key`.
fn find_member(e: &Vec<(String, JsonMember)>, key: &str) -> (r: Option<usize>)
    ensures
        match r {
            Some(i) => i < e@.len() && member_position(members_view(e@), key@) == i,
            None => member_position(members_view(e@), key@) < 0,
        },
{
    let ghost m = members_view(e@);
    let mut i: usize = 0;
    while i < e.len()
        invariant
            0 <= i <= e@.len(),
            m == members_view(e@),
            forall|j: int| 0 <= j < i ==> (#[trigger] m[j]).0 != key@,
        decreases e@.len() - i,
    {
        if same_text(e[i].0.as_str(), key) {
            proof {
                lemma_member_position_skip(m, key@, i as int);
                assert(m.skip(i as int)[0].0 == key@);
            }
            return Some(i);
        }
        i = i + 1;
    }
    proof {
        lemma_member_position_skip(m, key@, i as int);
        assert(m.skip(i as int).len() == 0);
    }
    None
}

/// The document with its member `key` set to the string `text`: `null`
/// becomes an object with that one member; in an object the first member
/// named `key` takes the new value, or the member comes last; any other
/// value has no members to set.
pub open spec fn with_string_member(d: DocumentView, key: Seq<char>, text: Seq<char>) -> Option<
    DocumentView,
> {
    match d {
        DocumentView::Null => Some(DocumentView::Object(seq![(key, MemberView::Text(text))])),
        DocumentView::Object(e) => {
            let p = member_position(e, key);
            Some(
                DocumentView::Object(
                    if p < 0 {
                        e.push((key, MemberView::Text(text)))
                    } else {
                        e.update(p, (key, MemberView::Text(text)))
                    },
                ),
            )
        },
        DocumentView::Other(_) => None,
    }
}

/// Sets the member `key` of `doc` to the string `text`, where `doc` is
/// `null` or an object; else leaves it as it was and gives `false`.
pub fn set_string_member(doc: &mut JsonDocument, key: &str, text: &str) -> (done: bool)
    ensures
        match with_string_member(old(doc)@, key@, text@) {
            Some(n) => done && final(doc)@ == n,
            None => !done && *final(doc) == *old(doc),
        },
{
    let mut d = JsonDocument::Null;
    std::mem::swap(&mut d, doc);
    match d {
        JsonDocument::Null => {
            let mut e: Vec<(String, JsonMember)> = Vec::new();
            e.push((key.to_owned(), JsonMember::Text(text.to_owned())));
            assert(members_view(e@) =~= seq![(key@, MemberView::Text(text@))]);
            *doc = JsonDocument::Object(e);
            true
        },
        JsonDocument::Object(mut e) => {
            let ghost m = members_view(e@);
            match find_member(&e, key) {
                Some(i) => {
                    e.set(i, (key.to_owned(), JsonMember::Text(text.to_owned())));
                    assert(members_view(e@) =~= m.update(i as int, (key@, MemberView::Text(text@))));
                },
                None => {
                    e.push((key.to_owned(), JsonMember::Text(text.to_owned())));
                    assert(members_view(e@) =~= m.push((key@, MemberView::Text(text@))));
                },
            }
            *doc = JsonDocument::Object(e);
            true
        },
        JsonDocument::Other(v) => {
            *doc = JsonDocument::Other(v);
            false
        },
    }
}

/// What `serde_json` writes for the JSON string `s` (the `Display` of a
/// `serde_json::Value::String`): `s` quoted, with its escapes.
pub uninterp spec fn json_string_text(s: Seq<char>) -> Seq<char>;

/// Renders `s` as a JSON string with `serde_json::Value`'s `Display`. The
/// contract names the text `json_string_text(s)`; the escaping is not
/// written out here.
#[verifier::external_body]
fn render_json_string(s: &str) -> (r: String)
    ensures
        r@ == json_string_text(s@),
{
    serde_json::Value::String(s.to_owned()).to_string()
}

/// The language title a locale document gives: its string member
/// `lang_title`, rendered as a JSON string; none where the document is not
/// an object, lacks that member or holds another kind of value there.
pub open spec fn lang_title_of(d: DocumentView) -> Option<Seq<char>> {
    match d {
        DocumentView::Object(e) => {
            let p = member_position(e, "lang_title"@);
            if p >= 0 {
                match e[p].1 {
                    MemberView::Text(s) => Some(json_string_text(s)),
                    MemberView::Json(_) => None,
                }
            } else {
                None
            }
        },
        _ => None,
    }
}

/// The language title the locale document `doc` gives.
pub fn lang_title(doc: &JsonDocument) -> (r: Option<String>)
    ensures
        match r {
            Some(t) => lang_title_of(doc@) == Some(t@),
            None => lang_title_of(doc@) is None,
        },
{
    match doc {
        JsonDocument::Object(e) => match find_member(e, "lang_title") {
            Some(i) => match &e[i].1 {
                JsonMember::Text(s) => Some(render_json_string(s.as_str())),
                JsonMember::Json(_) => None,
            },
            None => None,
        },
        _ => None,
    }
}

/// What `serde_json` writes for `doc` with its `PrettyFormatter`, indented
/// by one tab per level.
pub uninterp spec fn json_pretty_tab(doc: DocumentView) -> Seq<char>;

/// Moves `doc` back into a `serde_json::Value`, variant by variant, and
/// renders it with `serde_json`'s `PrettyFormatter`, indented by one tab per
/// level. Serializing a `serde_json::Value` into memory does not fail and
/// gives UTF-8, so the conversions cannot fail. The contract names the text
/// `json_pretty_tab(doc)`; the layout is not written out here.
#[verifier::external_body]
fn render_pretty_tab(doc: &JsonDocument) -> (r: String)
    ensures
        r@ == json_pretty_tab(doc@),
{
    let value = match doc {
        JsonDocument::Null => Value::Null,
        JsonDocument::Object(e) => Value::Object(e.iter().map(|(k, m)| (k.clone(), match m {
            JsonMember::Text(s) => Value::String(s.clone()),
            JsonMember::Json(v) => v.clone(),
        })).collect()),
        JsonDocument::Other(v) => v.clone(),
    };
    let f = serde_json::ser::PrettyFormatter::with_indent(b"\t");
    let mut ser = serde_json::Serializer::with_formatter(Vec::new(), f);
    value.serialize(&mut ser).unwrap();
    String::from_utf8(ser.into_inner()).unwrap()
}

/// The options document `options` with `locale_name` as its member
/// `locale_name`, rendered as JSON text indented by tabs; `None` where the
/// document is neither an object nor `null`, which has no members to set,
/// and is then left as it was.
pub fn options_with_locale(options: &mut JsonDocument, locale_name: &str) -> (r: Option<String>)
    ensures
        r is Some <==> (old(options)@ is Null || old(options)@ is Object),
        match with_string_member(old(options)@, "locale_name"@, locale_name@) {
            Some(n) => final(options)@ == n && (r matches Some(t) && t@ == json_pretty_tab(n)),
            None => r is None && *final(options) == *old(options),
        },
{
    if set_string_member(options, "locale_name", locale_name) {
        Some(render_pretty_tab(options))
    } else {
        None
    }
}

/// The report printed when a JSON document of options cannot be read.
pub open spec fn options_error_text(c: JsonErrorCategory) -> Seq<char> {
    match c {
        JsonErrorCategory::Io => "Couldn't read bytes due to an IO error. This error shouldn't occur normally, and if it keeps occuring, report it at https://github.com/Oakchris1955/rust-guessing-game/issues "@,
        JsonErrorCategory::Syntax => "There was an error in the syntax of \"options.json\". Exiting..."@,
        JsonErrorCategory::Data => "There was an error embedding the JSON info to the \"JSONOptions\" struct because a field's values didn't match each other. Exiting..."@,
        JsonErrorCategory::Eof => "Reached the end of the file while still waiting for more data. Exiting..."@,
    }
}

/// The report printed when a JSON document of options cannot be read.
pub fn options_error_message(c: JsonErrorCategory) -> (r: String)
    ensures
        r@ == options_error_text(c),
{
    match c {
        JsonErrorCategory::Io => String::from_str("Couldn't read bytes due to an IO error. This error shouldn't occur normally, and if it keeps occuring, report it at https://github.com/Oakchris1955/rust-guessing-game/issues "),
        JsonErrorCategory::Syntax => String::from_str("There was an error in the syntax of \"options.json\". Exiting..."),
        JsonErrorCategory::Data => String::from_str("There was an error embedding the JSON info to the \"JSONOptions\" struct because a field's values didn't match each other. Exiting..."),
        JsonErrorCategory::Eof => String::from_str("Reached the end of the file while still waiting for more data. Exiting..."),
    }
}

} // verus!
