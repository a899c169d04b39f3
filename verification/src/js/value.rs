//! Values of scripts and JSON: what a script's value is in JSON, what JSON is
//! to a script, how errors and console lines read.
use vstd::prelude::*;
use vstd::string::*;

use crate::js::arg::Arg;
use crate::js::case;
use crate::js::double;
use crate::json::{Json, JsonView, Number};
use crate::text;

verus! {

/// A value that a script gave, as far as its JSON form depends on it.
pub enum JsData {
    Null,
    Undefined,
    Boolean(bool),
    Integer(i32),
    /// A number, by the bits of a double.
    Rational(u64),
    Text(String),
    Symbol,
    /// A big integer, as text; nothing where converting it throws.
    BigInt(Option<String>),
    /// An array; nothing in the place of an element that cannot be read.
    Array(Vec<Element>),
    /// Any other object: what `JSON.stringify` gives of it, where it gives a
    /// string, and what converting it to a string gives, where that does not throw.
    Object { stringified: Option<Stringified>, shown: Option<String> },
}

/// An element of an array, if it can be read.
pub struct Element {
    pub value: Option<JsData>,
}

/// What `JSON.stringify` gives of an object, and what that says in JSON, where it is JSON.
pub struct Stringified {
    pub text: String,
    pub parsed: Option<Json>,
}

/// The JSON form of a number of 32 bits.
pub open spec fn small_integer(n: i32) -> Number {
    if n >= 0 {
        Number::PosInt(n as u64)
    } else {
        Number::NegInt(n as i64)
    }
}

/// The JSON form of an object that is no array.
pub open spec fn object_json(stringified: Option<Stringified>, shown: Option<String>) -> JsonView {
    match stringified {
        Some(s) => match s.parsed {
            Some(j) => j@,
            None => JsonView::Text(s.text@),
        },
        None => match shown {
            Some(t) => if t@ != "[object Object]"@ {
                JsonView::Text(t@)
            } else {
                JsonView::Object(Seq::empty())
            },
            None => JsonView::Object(Seq::empty()),
        },
    }
}

/// The JSON form of a script's value.
pub open spec fn data_json(d: JsData) -> JsonView
    decreases d,
{
    match d {
        JsData::Null => JsonView::Null,
        JsData::Undefined => JsonView::Null,
        JsData::Boolean(b) => JsonView::Bool(b),
        JsData::Integer(n) => JsonView::Number(small_integer(n)),
        JsData::Rational(bits) => if double::is_finite(bits) {
            JsonView::Number(Number::Float(bits))
        } else {
            JsonView::Null
        },
        JsData::Text(t) => JsonView::Text(t@),
        JsData::Symbol => JsonView::Text("[symbol]"@),
        JsData::BigInt(t) => JsonView::Text(
            match t {
                Some(s) => s@,
                None => "0n"@,
            },
        ),
        JsData::Array(v) => JsonView::Array(
            Seq::new(
                v@.len(),
                |i: int|
                    if 0 <= i < v@.len() {
                        match v@[i].value {
                            Some(e) => data_json(e),
                            None => JsonView::Null,
                        }
                    } else {
                        JsonView::Null
                    },
            ),
        ),
        JsData::Object { stringified, shown } => object_json(stringified, shown),
    }
}

/// The JSON form of a script's object that is no array.
pub fn object_to_json_via_stringify(stringified: &Option<Stringified>, shown: &Option<String>) -> (r:
    Json)
    ensures
        r@ == object_json(*stringified, *shown),
{
    match stringified {
        Some(s) => match &s.parsed {
            Some(j) => j.duplicate(),
            None => Json::Text(s.text.clone()),
        },
        None => match shown {
            Some(t) => if !text::same(t.as_str(), "[object Object]") {
                Json::Text(t.clone())
            } else {
                Json::empty_object()
            },
            None => Json::empty_object(),
        },
    }
}

/// The JSON form of a script's value.
pub fn js_value_to_json(d: &JsData) -> (r: Json)
    ensures
        r@ == data_json(*d),
    decreases d,
{
    match d {
        JsData::Null => Json::Null,
        JsData::Undefined => Json::Null,
        JsData::Boolean(b) => Json::Bool(*b),
        JsData::Integer(n) => Json::Number(
            if *n >= 0 {
                Number::PosInt(*n as u64)
            } else {
                Number::NegInt(*n as i64)
            },
        ),
        JsData::Rational(bits) => if double::finite(*bits) {
            Json::Number(Number::Float(*bits))
        } else {
            Json::Null
        },
        JsData::Text(t) => Json::Text(t.clone()),
        JsData::Symbol => Json::text("[symbol]"),
        JsData::BigInt(t) => match t {
            Some(s) => Json::Text(s.clone()),
            None => Json::text("0n"),
        },
        JsData::Array(v) => {
            let mut w: Vec<Json> = Vec::new();
            let mut i: usize = 0;
            while i < v.len()
                invariant
                    i <= v.len(),
                    *d == JsData::Array(*v),
                    w@.len() == i,
                    forall|j: int| 0 <= j < i ==> w@[j]@ == data_json(*d)->Array_0[j],
                decreases v.len() - i,
            {
                let item: Json = match &v[i].value {
                    Some(e) => {
                        proof {
                            assert(decreases_to!(d => d->Array_0));
                            assert(decreases_to!(v => v@));
                            assert(decreases_to!(v@ => v@[i as int]));
                            assert(decreases_to!(v@[i as int] => v@[i as int].value));
                            assert(decreases_to!(v@[i as int].value => v@[i as int].value->0));
                        }
                        js_value_to_json(e)
                    },
                    None => Json::Null,
                };
                w.push(item);
                i = i + 1;
            }
            let r: Json = Json::array(w);
            assert(r@->Array_0 =~= data_json(*d)->Array_0);
            r
        },
        JsData::Object { stringified, shown } => object_to_json_via_stringify(stringified, shown),
    }
}

/// A value that a script is given.
pub enum ScriptValue {
    Null,
    Boolean(bool),
    /// The double nearest to an integer.
    Whole(i64),
    /// The double nearest to an integer that no signed integer of 64 bits is.
    Large(u64),
    /// A double, by its bits.
    Double(u64),
    Text(String),
    Array(Vec<ScriptValue>),
    Object(Vec<Property>),
}

/// A property of an object that a script is given.
pub struct Property {
    pub name: String,
    pub value: ScriptValue,
}

/// A number is to a script the double nearest to it.
pub open spec fn number_value(n: Number) -> ScriptValue {
    match n {
        Number::PosInt(m) => if m <= i64::MAX {
            ScriptValue::Whole(m as i64)
        } else {
            ScriptValue::Large(m)
        },
        Number::NegInt(m) => ScriptValue::Whole(m),
        Number::Float(bits) => ScriptValue::Double(bits),
    }
}

/// A script's value is what a JSON value says.
pub open spec fn says(v: ScriptValue, j: JsonView) -> bool
    decreases v,
{
    match (v, j) {
        (ScriptValue::Null, JsonView::Null) => true,
        (ScriptValue::Boolean(a), JsonView::Bool(b)) => a == b,
        (ScriptValue::Text(a), JsonView::Text(b)) => a@ == b,
        (ScriptValue::Array(a), JsonView::Array(b)) => a@.len() == b.len() && forall|i: int|
            0 <= i < a@.len() ==> says(#[trigger] a@[i], b[i]),
        (ScriptValue::Object(a), JsonView::Object(b)) => a@.len() == b.len() && forall|i: int|
            0 <= i < a@.len() ==> (#[trigger] a@[i]).name@ == b[i].0 && says(a@[i].value, b[i].1),
        (_, JsonView::Number(n)) => v == number_value(n),
        _ => false,
    }
}

/// What a JSON value is to a script.
pub fn json_to_js_value(value: &Json) -> (r: ScriptValue)
    ensures
        says(r, value@),
    decreases value,
{
    match value {
        Json::Null => ScriptValue::Null,
        Json::Bool(b) => ScriptValue::Boolean(*b),
        Json::Number(n) => match n.as_i64() {
            Some(i) => ScriptValue::Whole(i),
            None => match *n {
                Number::PosInt(m) => ScriptValue::Large(m),
                Number::NegInt(m) => ScriptValue::Whole(m),
                Number::Float(bits) => ScriptValue::Double(bits),
            },
        },
        Json::Text(t) => ScriptValue::Text(t.clone()),
        Json::Array(v) => {
            let mut w: Vec<ScriptValue> = Vec::new();
            let mut i: usize = 0;
            while i < v.len()
                invariant
                    i <= v.len(),
                    *value == Json::Array(*v),
                    w@.len() == i,
                    forall|j: int| 0 <= j < i ==> says(#[trigger] w@[j], v@[j]@),
                decreases v.len() - i,
            {
                proof {
                    assert(decreases_to!(v => v@));
                    assert(decreases_to!(v@ => v@[i as int]));
                    assert(decreases_to!(value => value->Array_0));
                }
                w.push(json_to_js_value(&v[i]));
                i = i + 1;
            }
            ScriptValue::Array(w)
        },
        Json::Object(v) => {
            let mut w: Vec<Property> = Vec::new();
            let mut i: usize = 0;
            while i < v.len()
                invariant
                    i <= v.len(),
                    *value == Json::Object(*v),
                    w@.len() == i,
                    forall|j: int|
                        0 <= j < i ==> (#[trigger] w@[j]).name@ == v@[j].name@ && says(
                            w@[j].value,
                            v@[j].value@,
                        ),
                decreases v.len() - i,
            {
                proof {
                    assert(decreases_to!(v => v@));
                    assert(decreases_to!(v@ => v@[i as int]));
                    assert(decreases_to!(v@[i as int] => v@[i as int].value));
                    assert(decreases_to!(value => value->Object_0));
                }
                w.push(
                    Property {
                        name: v[i].name.clone(),
                        value: json_to_js_value(&v[i].value),
                    },
                );
                i = i + 1;
            }
            ScriptValue::Object(w)
        },
    }
}

/// An error that a script ended with.
pub enum JsErrorInfo {
    /// An error of the engine: the name of its kind, and its message.
    Native { kind: String, message: String },
    /// A value that the script threw: what converting it to a string gives,
    /// where that does not throw; of an object its members `message` and
    /// `name`, as far as they are strings; and how the engine prints it.
    Thrown { shown: Option<String>, own_message: Option<String>, own_name: Option<String>, printed: String },
    /// Neither.
    Unknown,
}

/// How an error reads.
pub open spec fn error_text(e: JsErrorInfo) -> Seq<char> {
    match e {
        JsErrorInfo::Native { kind, message } => if message@.len() == 0 {
            case::lowercased(kind@)
        } else {
            case::lowercased(kind@) + ": "@ + message@
        },
        JsErrorInfo::Thrown { shown, own_message, own_name, printed } => if shown is Some
            && shown->0@.len() > 0 && shown->0@ != "undefined"@ {
            shown->0@
        } else if own_message is Some && own_message->0@.len() > 0 {
            match own_name {
                Some(n) => n@ + ": "@ + own_message->0@,
                None => own_message->0@,
            }
        } else {
            "Error: "@ + printed@
        },
        JsErrorInfo::Unknown => "Unknown JavaScript error"@,
    }
}

/// How an error reads.
pub fn format_js_error(e: &JsErrorInfo) -> (r: String)
    ensures
        r@ == error_text(*e),
{
    match e {
        JsErrorInfo::Native { kind, message } => {
            let lower: String = case::to_lower(kind.as_str());
            if text::is_empty(message.as_str()) {
                lower
            } else {
                text::concat3(lower.as_str(), ": ", message.as_str())
            }
        },
        JsErrorInfo::Thrown { shown, own_message, own_name, printed } => {
            match shown {
                Some(s) => {
                    if !text::is_empty(s.as_str()) && !text::same(s.as_str(), "undefined") {
                        return s.clone();
                    }
                },
                None => {},
            }
            match own_message {
                Some(m) => {
                    if !text::is_empty(m.as_str()) {
                        return match own_name {
                            Some(n) => text::concat3(n.as_str(), ": ", m.as_str()),
                            None => m.clone(),
                        };
                    }
                },
                None => {},
            }
            text::concat("Error: ", printed.as_str())
        },
        JsErrorInfo::Unknown => "Unknown JavaScript error".to_owned(),
    }
}

/// What the console shows of an argument.
pub open spec fn console_word(a: Arg) -> Seq<char> {
    match a.shown {
        Some(t) => t@,
        None => "undefined"@,
    }
}

/// What the console shows of arguments, each.
pub open spec fn console_words(args: Seq<Arg>) -> Seq<Seq<char>> {
    args.map_values(|a: Arg| console_word(a))
}

/// The line that `console.log` and its like write: the arguments as strings,
/// with spaces between.
pub fn console_line(args: &[Arg]) -> (r: String)
    ensures
        r@ == text::joined(console_words(args@), " "@),
{
    let mut words: Vec<String> = Vec::new();
    let mut i: usize = 0;
    while i < args.len()
        invariant
            i <= args.len(),
            words@.len() == i,
            forall|j: int| 0 <= j < i ==> words@[j]@ == console_word(args@[j]),
        decreases args.len() - i,
    {
        words.push(
            match &args[i].shown {
                Some(t) => t.clone(),
                None => "undefined".to_owned(),
            },
        );
        i = i + 1;
    }
    assert(text::views(words@) =~= console_words(args@));
    text::join(words.as_slice(), " ")
}

/// What a script reads of a value that it was given, where nothing happens to
/// the value in between. Integers and objects are left out: those a script reads
/// as doubles, these through `JSON.stringify`.
pub open spec fn read_as(v: ScriptValue, d: JsData) -> bool
    decreases v,
{
    match (v, d) {
        (ScriptValue::Null, JsData::Null) => true,
        (ScriptValue::Boolean(a), JsData::Boolean(b)) => a == b,
        (ScriptValue::Double(a), JsData::Rational(b)) => a == b && double::is_finite(a),
        (ScriptValue::Text(a), JsData::Text(b)) => a@ == b@,
        (ScriptValue::Array(a), JsData::Array(b)) => a@.len() == b@.len() && forall|i: int|
            0 <= i < a@.len() ==> (b@[i].value matches Some(e) && read_as(#[trigger] a@[i], e)),
        _ => false,
    }
}

/// A JSON value that is handed to a script and read back is the same JSON value:
/// null, booleans, strings, finite doubles, and arrays of such.
pub proof fn lemma_value_read_back(v: ScriptValue, d: JsData, j: JsonView)
    requires
        says(v, j),
        read_as(v, d),
    ensures
        data_json(d) == j,
    decreases v,
{
    match (v, d, j) {
        (ScriptValue::Array(a), JsData::Array(b), JsonView::Array(c)) => {
            let got = data_json(d)->Array_0;
            assert forall|i: int| 0 <= i < c.len() implies got[i] == c[i] by {
                assert(says(a@[i], c[i]));
                assert(read_as(a@[i], b@[i].value->0));
                assert(decreases_to!(v => v->Array_0));
                assert(decreases_to!(a => a@));
                assert(decreases_to!(a@ => a@[i]));
                lemma_value_read_back(a@[i], b@[i].value->0, c[i]);
            }
            assert(got =~= c);
        },
        _ => {},
    }
}

/// Strings that differ have JSON forms that differ: the JSON form of a string
/// holds its characters, and it is a string.
pub proof fn lemma_text_json(s: String, t: String)
    ensures
        data_json(JsData::Text(s)) is Text,
        (data_json(JsData::Text(s)))->Text_0 == s@,
        data_json(JsData::Text(s)) == data_json(JsData::Text(t)) <==> s@ == t@,
{
}

/// The JSON form of a number of a script is the same number: an integer stays an
/// integer of the same value, a finite double the same double. Only what JSON
/// has no number for becomes null.
pub proof fn lemma_number_json(n: i32, bits: u64)
    ensures
        (data_json(JsData::Integer(n)) matches JsonView::Number(k) && k.integer() == Some(n as int)
            && match k {
            Number::PosInt(m) => m == n,
            Number::NegInt(m) => m == n && n < 0,
            Number::Float(_) => false,
        }),
        data_json(JsData::Rational(bits)) is Null <==> (bits as int / 0x10_0000_0000_0000) % 0x800
            == 0x7ff,
        !(data_json(JsData::Rational(bits)) is Null) ==> data_json(JsData::Rational(bits))
            == JsonView::Number(Number::Float(bits)),
{
}

/// A boolean keeps its value, what is missing becomes null, a big integer is
/// written out, and what has no other form is a string.
pub proof fn lemma_simple_json(b: bool, t: String)
    ensures
        data_json(JsData::Boolean(b)) == JsonView::Bool(b),
        data_json(JsData::Null) is Null,
        data_json(JsData::Undefined) is Null,
        data_json(JsData::BigInt(Some(t))) == JsonView::Text(t@),
        data_json(JsData::BigInt(None)) == JsonView::Text(seq!['0', 'n']),
        data_json(JsData::Symbol) == JsonView::Text(
            seq!['[', 's', 'y', 'm', 'b', 'o', 'l', ']'],
        ),
{
    reveal_strlit("0n");
    reveal_strlit("[symbol]");
    assert("0n"@ =~= seq!['0', 'n']);
    assert("[symbol]"@ =~= seq!['[', 's', 'y', 'm', 'b', 'o', 'l', ']']);
}

/// The JSON form of an array has as many elements, each the JSON form of the
/// element at its place, and null in the place of one that cannot be read.
pub proof fn lemma_array_json(v: Vec<Element>, i: int)
    requires
        0 <= i < v@.len(),
    ensures
        (data_json(JsData::Array(v)) matches JsonView::Array(w) && w.len() == v@.len() && w[i]
            == match v@[i].value {
            Some(e) => data_json(e),
            None => JsonView::Null,
        }),
{
}

/// The JSON form of an object is what `JSON.stringify` gave of it, read as JSON
/// where it is that, else as a string; where it gave nothing, the object's own
/// text, unless that says no more than that it is an object.
pub proof fn lemma_object_json(s: Stringified, shown: Option<String>, t: String)
    ensures
        s.parsed is Some ==> data_json(
            JsData::Object { stringified: Some(s), shown },
        ) == (s.parsed->0)@,
        s.parsed is None ==> data_json(JsData::Object { stringified: Some(s), shown })
            == JsonView::Text(s.text@),
        t@ != "[object Object]"@ ==> data_json(
            JsData::Object { stringified: None, shown: Some(t) },
        ) == JsonView::Text(t@),
        (data_json(JsData::Object { stringified: None, shown: None }) matches JsonView::Object(m)
            && m.len() == 0),
{
}

/// What an object says to a script: its members, in order, each under its name
/// with what its value says; and a script's value that says an object is one.
pub proof fn lemma_object_said(v: ScriptValue, ms: Seq<(Seq<char>, JsonView)>)
    requires
        says(v, JsonView::Object(ms)),
    ensures
        (v matches ScriptValue::Object(ps) && ps@.len() == ms.len() && forall|i: int|
            0 <= i < ms.len() ==> (#[trigger] ps@[i]).name@ == ms[i].0 && says(
                ps@[i].value,
                ms[i].1,
            )),
{
}

/// A number is to a script the double nearest to it: an integer by its value, a
/// double by its bits.
pub proof fn lemma_number_said(v: ScriptValue, n: Number)
    requires
        says(v, JsonView::Number(n)),
    ensures
        match n {
            Number::PosInt(m) => match v {
                ScriptValue::Whole(i) => i == m,
                ScriptValue::Large(i) => i == m,
                _ => false,
            },
            Number::NegInt(m) => v == ScriptValue::Whole(m),
            Number::Float(bits) => v == ScriptValue::Double(bits),
        },
{
}

/// How an error of the engine reads: the name of its kind in lower case, and
/// behind it the message, if there is one.
pub proof fn lemma_native_error(kind: String, message: String)
    ensures
        ({
            let r = error_text(JsErrorInfo::Native { kind, message });
            let name = case::lowercased(kind@);
            &&& r.take(name.len() as int) == name
            &&& message@.len() == 0 ==> r.len() == name.len()
            &&& message@.len() > 0 ==> r.len() == name.len() + 2 + message@.len() && r.skip(
                name.len() as int + 2,
            ) == message@ && r[name.len() as int] == ':' && r[name.len() as int + 1] == ' '
        }),
{
    reveal_strlit(": ");
    let r = error_text(JsErrorInfo::Native { kind, message });
    let name = case::lowercased(kind@);
    assert(r.take(name.len() as int) =~= name);
    if message@.len() > 0 {
        assert(r.skip(name.len() as int + 2) =~= message@);
    }
}

/// How a value that was thrown reads: as the string it is converted to, where
/// that says something; else by its name and message; else as the engine prints it.
pub proof fn lemma_thrown_error(
    shown: Option<String>,
    own_message: Option<String>,
    own_name: Option<String>,
    printed: String,
)
    ensures
        ({
            let r = error_text(JsErrorInfo::Thrown { shown, own_message, own_name, printed });
            let says = shown is Some && shown->0@.len() > 0 && shown->0@ != "undefined"@;
            let told = own_message is Some && own_message->0@.len() > 0;
            &&& says ==> r == shown->0@
            &&& !says && told && own_name is None ==> r == own_message->0@
            &&& !says && told && own_name is Some ==> r.len() == own_name->0@.len() + 2
                + own_message->0@.len() && r.take(own_name->0@.len() as int) == own_name->0@
                && r.skip(own_name->0@.len() as int + 2) == own_message->0@
            &&& !says && !told ==> r.len() == 7 + printed@.len() && r.skip(7) == printed@
        }),
{
    reveal_strlit(": ");
    reveal_strlit("Error: ");
    let r = error_text(JsErrorInfo::Thrown { shown, own_message, own_name, printed });
    let says = shown is Some && shown->0@.len() > 0 && shown->0@ != "undefined"@;
    let told = own_message is Some && own_message->0@.len() > 0;
    if !says && told && own_name is Some {
        assert(r.take(own_name->0@.len() as int) =~= own_name->0@);
        assert(r.skip(own_name->0@.len() as int + 2) =~= own_message->0@);
    }
    if !says && !told {
        assert(r.skip(7) =~= printed@);
    }
}

/// The words of a console line are the arguments as strings, in order: a line
/// cut at its spaces gives them back, where none of them holds a space. An
/// argument that cannot be converted is shown as undefined.
pub proof fn lemma_console_line(args: Seq<Arg>)
    requires
        args.len() > 0,
        forall|i: int|
            0 <= i < args.len() ==> ((#[trigger] args[i]).shown matches Some(t) ==> !t@.contains(
                ' ',
            )),
    ensures
        ({
            let words = text::pieces(text::joined(console_words(args), " "@), " "@);
            &&& words.len() == args.len()
            &&& forall|i: int|
                0 <= i < args.len() ==> #[trigger] words[i] == match args[i].shown {
                    Some(t) => t@,
                    None => "undefined"@,
                }
        }),
{
    reveal_strlit(" ");
    reveal_strlit("undefined");
    assert(" "@ =~= seq![' ']);
    let words = console_words(args);
    assert forall|i: int| 0 <= i < words.len() implies !(#[trigger] words[i]).contains(' ') by {
        assert(words[i] == console_word(args[i]));
        if args[i].shown is None {
            assert forall|k: int| 0 <= k < words[i].len() implies words[i][k] != ' ' by {}
        }
    }
    text::lemma_pieces_joined(words, ' ');
}

/// An integer is handed to a script as an integer where it fits into 64 bits with
/// a sign, and only beyond as a large one; the text of a plain object that says
/// no more than that it is one stands for an empty object.
pub proof fn lemma_integer_given(v: ScriptValue, m: u64, t: String)
    ensures
        says(v, JsonView::Number(Number::PosInt(m))) && m <= 0x7fff_ffff_ffff_ffff ==> (v matches
            ScriptValue::Whole(n) && n == m),
        says(v, JsonView::Number(Number::PosInt(m))) && m > 0x7fff_ffff_ffff_ffff ==> (v matches
            ScriptValue::Large(n) && n == m),
        t@ == "[object Object]"@ ==> (data_json(JsData::Object { stringified: None, shown: Some(t) })
            matches JsonView::Object(ms) && ms.len() == 0),
{
}

} // verus!
