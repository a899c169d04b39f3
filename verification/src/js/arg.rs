//! The arguments that scripts hand to functions of the runtime.
use vstd::prelude::*;
use vstd::string::*;

use crate::js::double;

verus! {

/// What the functions of the runtime can tell of a script's value.
#[derive(Debug, PartialEq, Eq)]
pub enum Kind {
    Undefined,
    Null,
    Boolean(bool),
    /// A number, by the bits of a double.
    Number(u64),
    Text(String),
    /// An object: whether it can be called, and, of an object that stands for
    /// a node of the document, the number in its property `__nodeId`, by the
    /// bits of a double.
    Object { callable: bool, node_id: Option<u64> },
    /// A symbol or a big integer.
    Other,
}

/// An argument: its value, and the text that converting it to a string gives,
/// which is missing where the conversion throws.
#[derive(Debug, PartialEq, Eq)]
pub struct Arg {
    pub kind: Kind,
    pub shown: Option<String>,
}

/// The argument at place `i`, as far as it is a string; the empty text if it
/// is none or missing.
pub open spec fn text_at(args: Seq<Arg>, i: int) -> Seq<char> {
    if 0 <= i < args.len() {
        match args[i].kind {
            Kind::Text(t) => t@,
            _ => Seq::empty(),
        }
    } else {
        Seq::empty()
    }
}

/// The argument at place `i` converted to a string; the empty text if that
/// throws or the argument is missing.
pub open spec fn shown_at(args: Seq<Arg>, i: int) -> Seq<char> {
    if 0 <= i < args.len() {
        match args[i].shown {
            Some(t) => t@,
            None => Seq::empty(),
        }
    } else {
        Seq::empty()
    }
}

/// The argument at place `i`, as far as it is a number; zero if it is none or missing.
pub open spec fn number_at(args: Seq<Arg>, i: int) -> u64 {
    match given_number(args, i) {
        Some(bits) => bits,
        None => 0,
    }
}

/// The argument at place `i`, if it is a number.
pub open spec fn given_number(args: Seq<Arg>, i: int) -> Option<u64> {
    if 0 <= i < args.len() {
        match args[i].kind {
            Kind::Number(bits) => Some(bits),
            _ => None,
        }
    } else {
        None
    }
}

/// The argument at place `i`, if it is a boolean.
pub open spec fn given_boolean(args: Seq<Arg>, i: int) -> Option<bool> {
    if 0 <= i < args.len() {
        match args[i].kind {
            Kind::Boolean(b) => Some(b),
            _ => None,
        }
    } else {
        None
    }
}

/// The argument at place `i` can be called.
pub open spec fn callable_at(args: Seq<Arg>, i: int) -> bool {
    0 <= i < args.len() && args[i].kind matches Kind::Object { callable: true, .. }
}

/// The argument at place `i` is there, and neither undefined nor null.
pub open spec fn present_at(args: Seq<Arg>, i: int) -> bool {
    0 <= i < args.len() && !(args[i].kind is Undefined) && !(args[i].kind is Null)
}

/// The id of the node that the argument at place `i` stands for, if it does for one.
pub open spec fn node_at(args: Seq<Arg>, i: int) -> Option<u32> {
    if 0 <= i < args.len() {
        match args[i].kind {
            Kind::Object { node_id: Some(bits), .. } => Some(
                double::clamped(double::truncated(bits), 0, u32::MAX as int) as u32,
            ),
            _ => None,
        }
    } else {
        None
    }
}

/// The argument at place `i`, as far as it is a string.
pub fn text(args: &[Arg], i: usize) -> (r: String)
    ensures
        r@ == text_at(args@, i as int),
{
    if i < args.len() {
        match &args[i].kind {
            Kind::Text(t) => t.clone(),
            _ => String::new(),
        }
    } else {
        String::new()
    }
}

/// The argument at place `i` converted to a string.
pub fn shown(args: &[Arg], i: usize) -> (r: String)
    ensures
        r@ == shown_at(args@, i as int),
{
    if i < args.len() {
        match &args[i].shown {
            Some(t) => t.clone(),
            None => String::new(),
        }
    } else {
        String::new()
    }
}

/// The argument at place `i`, if it is a number.
pub fn number(args: &[Arg], i: usize) -> (r: Option<u64>)
    ensures
        r == given_number(args@, i as int),
{
    if i < args.len() {
        match args[i].kind {
            Kind::Number(bits) => Some(bits),
            _ => None,
        }
    } else {
        None
    }
}

/// The argument at place `i`, as far as it is a number.
pub fn number_or_zero(args: &[Arg], i: usize) -> (r: u64)
    ensures
        r == number_at(args@, i as int),
{
    match number(args, i) {
        Some(bits) => bits,
        None => 0,
    }
}

/// The argument at place `i`, if it is a boolean.
pub fn boolean(args: &[Arg], i: usize) -> (r: Option<bool>)
    ensures
        r == given_boolean(args@, i as int),
{
    if i < args.len() {
        match args[i].kind {
            Kind::Boolean(b) => Some(b),
            _ => None,
        }
    } else {
        None
    }
}

/// Whether the argument at place `i` can be called.
pub fn callable(args: &[Arg], i: usize) -> (r: bool)
    ensures
        r == callable_at(args@, i as int),
{
    if i < args.len() {
        match args[i].kind {
            Kind::Object { callable, .. } => callable,
            _ => false,
        }
    } else {
        false
    }
}

/// Whether the argument at place `i` is there, and neither undefined nor null.
pub fn present(args: &[Arg], i: usize) -> (r: bool)
    ensures
        r == present_at(args@, i as int),
{
    if i < args.len() {
        match args[i].kind {
            Kind::Undefined => false,
            Kind::Null => false,
            _ => true,
        }
    } else {
        false
    }
}

/// The id of the node that the argument at place `i` stands for, if it does for one.
pub fn node(args: &[Arg], i: usize) -> (r: Option<u32>)
    ensures
        r == node_at(args@, i as int),
{
    if i < args.len() {
        match args[i].kind {
            Kind::Object { node_id: Some(bits), .. } => Some(double::to_u32(bits)),
            _ => None,
        }
    } else {
        None
    }
}

/// An argument is read as what it is: a string as text, a number as a number, a
/// boolean as one, each only if it is that. One that is missing is nothing.
pub proof fn lemma_read_arguments(args: Seq<Arg>, i: int)
    ensures
        i < 0 || i >= args.len() ==> text_at(args, i).len() == 0 && shown_at(args, i).len() == 0
            && given_number(args, i) is None && given_boolean(args, i) is None && !callable_at(args, i)
            && !present_at(args, i) && node_at(args, i) is None,
        0 <= i < args.len() ==> {
            let a = args[i];
            &&& a.shown matches Some(t) ==> shown_at(args, i) == t@
            &&& a.shown is None ==> shown_at(args, i).len() == 0
            &&& match a.kind {
                Kind::Text(t) => text_at(args, i) == t@,
                _ => text_at(args, i).len() == 0,
            }
            &&& match a.kind {
                Kind::Number(bits) => given_number(args, i) == Some(bits) && number_at(args, i) == bits,
                _ => given_number(args, i) is None && number_at(args, i) == 0,
            }
            &&& match a.kind {
                Kind::Boolean(b) => given_boolean(args, i) == Some(b),
                _ => given_boolean(args, i) is None,
            }
            &&& match a.kind {
                Kind::Object { callable, node_id } => {
                    &&& callable_at(args, i) == callable
                    &&& node_at(args, i) is Some <==> node_id is Some
                    &&& node_id matches Some(bits) ==> (0 <= double::truncated(bits) <= u32::MAX
                        ==> node_at(args, i)->0 == double::truncated(bits))
                },
                _ => !callable_at(args, i) && node_at(args, i) is None,
            }
            &&& present_at(args, i) <==> !(a.kind is Undefined || a.kind is Null)
        },
{
}

} // verus!
