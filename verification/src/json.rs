//! JSON documents as the providers send them, read with `serde_json`.
//!
//! A document is seen through its JSON pointers: for every pointer that leads to a
//! value of the document, what kind of value stands there.

use vstd::prelude::*;
use vstd::string::StringExecFns;

verus! {

/// A parsed JSON document of `serde_json`. Its content is known only through
/// [`json_contents`].
#[verifier::external_type_specification]
#[verifier::external_body]
pub struct ExJsonValue(serde_json::Value);

/// The error with which `serde_json` refuses a text.
#[verifier::external_type_specification]
#[verifier::external_body]
pub struct ExJsonError(serde_json::Error);

/// What stands at one place of a JSON document. Of a number only its presence is kept,
/// of a list its length, of an object nothing but that it is one.
#[derive(Clone, Debug, PartialEq, Eq)]
pub enum JsonNode {
    Null,
    Bool(bool),
    Number,
    Text(String),
    List(usize),
    Object,
}

/// Mathematical model of a [`JsonNode`].
pub enum JsonNodeView {
    Null,
    Bool(bool),
    Number,
    Text(Seq<char>),
    List(nat),
    Object,
}

impl View for JsonNode {
    type V = JsonNodeView;

    open spec fn view(&self) -> JsonNodeView {
        match *self {
            JsonNode::Null => JsonNodeView::Null,
            JsonNode::Bool(b) => JsonNodeView::Bool(b),
            JsonNode::Number => JsonNodeView::Number,
            JsonNode::Text(s) => JsonNodeView::Text(s@),
            JsonNode::List(n) => JsonNodeView::List(n as nat),
            JsonNode::Object => JsonNodeView::Object,
        }
    }
}

/// The content of a JSON document: the pointers that lead to a value of it, each with
/// what stands there. The pointers are those of `serde_json::Value::pointer`; the empty
/// pointer leads to the document itself.
pub type JsonContents = Map<Seq<char>, JsonNodeView>;

/// What `serde_json::Value::pointer` finds in `doc`, pointer by pointer.
pub uninterp spec fn json_contents(doc: serde_json::Value) -> Map<Seq<char>, JsonNodeView>;

/// The content of the document that `serde_json::from_str` reads from `text`, or `None`
/// if it refuses the text.
pub uninterp spec fn parsed_json(text: Seq<char>) -> Option<Map<Seq<char>, JsonNodeView>>;

/// Calls `serde_json::from_str` for a `serde_json::Value`. The contract gives the
/// outcome its name: the content of the document that was read, or nothing where the
/// text was refused.
#[verifier::external_body]
fn parse_json(text: &str) -> (r: Result<serde_json::Value, serde_json::Error>)
    ensures
        match r {
            Ok(doc) => parsed_json(text@) == Some(json_contents(doc)),
            Err(_) => parsed_json(text@) is None,
        },
{
    serde_json::from_str::<serde_json::Value>(text)
}

/// Calls `serde_json::Value::pointer` and tells what kind of value it has found. The
/// contract says that this is what the content of the document holds for the pointer,
/// and that nothing is found exactly where the content holds nothing.
#[verifier::external_body]
fn json_at(doc: &serde_json::Value, pointer: &str) -> (found: Option<JsonNode>)
    ensures
        match found {
            Some(node) => json_contents(*doc).contains_key(pointer@) && node@ == json_contents(
                *doc,
            )[pointer@],
            None => !json_contents(*doc).contains_key(pointer@),
        },
{
    match doc.pointer(pointer) {
        None => None,
        Some(serde_json::Value::Null) => Some(JsonNode::Null),
        Some(serde_json::Value::Bool(b)) => Some(JsonNode::Bool(*b)),
        Some(serde_json::Value::Number(_)) => Some(JsonNode::Number),
        Some(serde_json::Value::String(s)) => Some(JsonNode::Text(s.clone())),
        Some(serde_json::Value::Array(items)) => Some(JsonNode::List(items.len())),
        Some(serde_json::Value::Object(_)) => Some(JsonNode::Object),
    }
}

/// The text at `pointer`, if a text stands there.
pub open spec fn text_at(c: JsonContents, pointer: Seq<char>) -> Option<Seq<char>> {
    if c.contains_key(pointer) {
        match c[pointer] {
            JsonNodeView::Text(t) => Some(t),
            _ => None,
        }
    } else {
        None
    }
}

/// The text at `pointer` where one may be left out: nothing or `null` count as left
/// out, a text as given, and anything else is a mistake.
pub open spec fn optional_text_at(c: JsonContents, pointer: Seq<char>) -> Result<
    Option<Seq<char>>,
    (),
> {
    if c.contains_key(pointer) {
        match c[pointer] {
            JsonNodeView::Text(t) => Ok(Some(t)),
            JsonNodeView::Null => Ok(None),
            _ => Err(()),
        }
    } else {
        Ok(None)
    }
}

/// The truth value at `pointer`, if one stands there.
pub open spec fn bool_at(c: JsonContents, pointer: Seq<char>) -> Option<bool> {
    if c.contains_key(pointer) {
        match c[pointer] {
            JsonNodeView::Bool(b) => Some(b),
            _ => None,
        }
    } else {
        None
    }
}

/// Whether nothing or `null` stands at `pointer`.
pub open spec fn left_out(c: JsonContents, pointer: Seq<char>) -> bool {
    !c.contains_key(pointer) || c[pointer] is Null
}

/// Whether an object stands at `pointer`.
pub open spec fn object_at(c: JsonContents, pointer: Seq<char>) -> bool {
    c.contains_key(pointer) && c[pointer] is Object
}

/// The character of a decimal digit.
pub open spec fn digit(d: nat) -> char {
    if d == 0 {
        '0'
    } else if d == 1 {
        '1'
    } else if d == 2 {
        '2'
    } else if d == 3 {
        '3'
    } else if d == 4 {
        '4'
    } else if d == 5 {
        '5'
    } else if d == 6 {
        '6'
    } else if d == 7 {
        '7'
    } else if d == 8 {
        '8'
    } else {
        '9'
    }
}

/// The decimal numeral of `n`, without leading zeros.
pub open spec fn decimal(n: nat) -> Seq<char>
    decreases n,
{
    if n < 10 {
        seq![digit(n)]
    } else {
        decimal(n / 10).push(digit(n % 10))
    }
}

/// Where the name of the model with the given place in the list stands.
pub open spec fn model_name_pointer(place: nat) -> Seq<char> {
    "/models/"@ + decimal(place) + "/name"@
}

/// The names of the first `n` models of a list of models: of each entry that has a
/// text as its `name`, that text.
pub open spec fn model_names_upto(c: JsonContents, n: nat) -> Seq<Seq<char>>
    decreases n,
{
    if n == 0 {
        Seq::empty()
    } else {
        let earlier = model_names_upto(c, (n - 1) as nat);
        match text_at(c, model_name_pointer((n - 1) as nat)) {
            Some(name) => earlier.push(name),
            None => earlier,
        }
    }
}

/// The names of the models that a provider lists under `models`. A document without
/// such a list names none.
pub open spec fn model_names(c: JsonContents) -> Seq<Seq<char>> {
    if c.contains_key("/models"@) {
        match c["/models"@] {
            JsonNodeView::List(n) => model_names_upto(c, n),
            _ => Seq::empty(),
        }
    } else {
        Seq::empty()
    }
}

/// The texts held by a sequence of strings.
pub open spec fn texts(names: Seq<String>) -> Seq<Seq<char>> {
    names.map_values(|s: String| s@)
}

/// Reads a JSON document from `text`; `None` if the text is not a JSON document.
pub fn read_json(text: &str) -> (r: Option<serde_json::Value>)
    ensures
        match r {
            Some(doc) => parsed_json(text@) == Some(json_contents(doc)),
            None => parsed_json(text@) is None,
        },
{
    match parse_json(text) {
        Ok(doc) => Some(doc),
        Err(_) => None,
    }
}

/// Whether an object stands in `doc` at `pointer`.
pub fn is_object_at(doc: &serde_json::Value, pointer: &str) -> (r: bool)
    ensures
        r == object_at(json_contents(*doc), pointer@),
{
    match json_at(doc, pointer) {
        Some(JsonNode::Object) => true,
        _ => false,
    }
}

/// The truth value that stands in `doc` at `pointer`.
pub fn read_bool(doc: &serde_json::Value, pointer: &str) -> (r: Option<bool>)
    ensures
        r == bool_at(json_contents(*doc), pointer@),
{
    match json_at(doc, pointer) {
        Some(JsonNode::Bool(b)) => Some(b),
        _ => None,
    }
}

/// Whether nothing or `null` stands in `doc` at `pointer`.
pub fn is_left_out(doc: &serde_json::Value, pointer: &str) -> (r: bool)
    ensures
        r == left_out(json_contents(*doc), pointer@),
{
    match json_at(doc, pointer) {
        Some(JsonNode::Null) => true,
        Some(_) => false,
        None => true,
    }
}

/// The text that stands in `doc` at `pointer`.
pub fn read_text(doc: &serde_json::Value, pointer: &str) -> (r: Option<String>)
    ensures
        crate::nodes::opt_text(r) == text_at(json_contents(*doc), pointer@),
{
    match json_at(doc, pointer) {
        Some(JsonNode::Text(text)) => Some(text),
        _ => None,
    }
}

/// The text that stands in `doc` at `pointer` and may be left out.
pub fn read_optional_text(doc: &serde_json::Value, pointer: &str) -> (r: Result<Option<String>, ()>)
    ensures
        match r {
            Ok(text) => optional_text_at(json_contents(*doc), pointer@) == Ok::<
                Option<Seq<char>>,
                (),
            >(crate::nodes::opt_text(text)),
            Err(_) => optional_text_at(json_contents(*doc), pointer@) is Err,
        },
{
    match json_at(doc, pointer) {
        Some(JsonNode::Text(text)) => Ok(Some(text)),
        Some(JsonNode::Null) => Ok(None),
        Some(_) => Err(()),
        None => Ok(None),
    }
}

/// Appends the decimal numeral of `n` to `text`.
pub fn push_decimal(text: &mut String, n: usize)
    ensures
        final(text)@ == old(text)@ + decimal(n as nat),
    decreases n,
{
    if n >= 10 {
        push_decimal(text, n / 10);
    }
    let d = n % 10;
    let numeral = if d == 0 {
        "0"
    } else if d == 1 {
        "1"
    } else if d == 2 {
        "2"
    } else if d == 3 {
        "3"
    } else if d == 4 {
        "4"
    } else if d == 5 {
        "5"
    } else if d == 6 {
        "6"
    } else if d == 7 {
        "7"
    } else if d == 8 {
        "8"
    } else {
        "9"
    };
    proof {
        reveal_strlit("0");
        reveal_strlit("1");
        reveal_strlit("2");
        reveal_strlit("3");
        reveal_strlit("4");
        reveal_strlit("5");
        reveal_strlit("6");
        reveal_strlit("7");
        reveal_strlit("8");
        reveal_strlit("9");
        assert(numeral@ =~= seq![digit(d as nat)]);
    }
    text.append(numeral);
    assert(text@ =~= old(text)@ + decimal(n as nat));
}

/// The names of the models that the document `doc` lists under `models`.
pub fn model_names_in(doc: &serde_json::Value) -> (names: Vec<String>)
    ensures
        texts(names@) == model_names(json_contents(*doc)),
{
    let mut names: Vec<String> = Vec::new();
    let n = match json_at(doc, "/models") {
        Some(JsonNode::List(n)) => n,
        _ => {
            assert(texts(names@) =~= Seq::empty());
            return names;
        },
    };
    let mut i: usize = 0;
    assert(texts(names@) =~= Seq::empty());
    while i < n
        invariant
            i <= n,
            texts(names@) == model_names_upto(json_contents(*doc), i as nat),
        decreases n - i,
    {
        let mut pointer = String::new();
        pointer.append("/models/");
        push_decimal(&mut pointer, i);
        pointer.append("/name");
        assert(pointer@ =~= model_name_pointer(i as nat));
        let ghost before = names@;
        if let Some(name) = read_text(doc, pointer.as_str()) {
            names.push(name);
            assert(texts(names@) =~= texts(before).push(name@));
        }
        i += 1;
    }
    names
}

/// The names of the models listed in the answer `body` of the local provider to the
/// question which models it has; `None` if the answer is not a JSON document.
pub fn ollama_model_names(body: &str) -> (r: Option<Vec<String>>)
    ensures
        match r {
            Some(names) => parsed_json(body@) is Some && texts(names@) == model_names(
                parsed_json(body@)->0,
            ),
            None => parsed_json(body@) is None,
        },
{
    match read_json(body) {
        Some(doc) => Some(model_names_in(&doc)),
        None => None,
    }
}

} // verus!
