//! `window.history`: the commands that its functions send to the session.
use vstd::prelude::*;
use vstd::string::*;

use crate::js::arg;
use crate::js::arg::Arg;
use crate::js::double;

verus! {

/// A command of a script to the session's history.
#[derive(Debug, Clone, PartialEq, Eq)]
pub enum HistoryCommandType {
    /// `history.pushState(state, title, url)`
    PushState { url: String },
    /// `history.replaceState(state, title, url)`
    ReplaceState { url: String },
    /// `history.back()`
    Back,
    /// `history.forward()`
    Forward,
    /// `history.go(delta)`
    Go { delta: i32 },
}

/// The URL that a script hands to the history: its third argument.
pub open spec fn told_url(args: Seq<Arg>) -> Seq<char> {
    arg::text_at(args, 2)
}

/// How far a script goes in the history: its first argument.
pub open spec fn told_delta(args: Seq<Arg>) -> int {
    double::clamped(double::truncated(arg::number_at(args, 0)), i32::MIN as int, i32::MAX as int)
}

/// The command of `history.pushState(state, title, url)`.
pub fn push_state(args: &[Arg]) -> (r: HistoryCommandType)
    ensures
        r matches HistoryCommandType::PushState { url } && url@ == told_url(args@),
{
    HistoryCommandType::PushState { url: arg::text(args, 2) }
}

/// The command of `history.replaceState(state, title, url)`.
pub fn replace_state(args: &[Arg]) -> (r: HistoryCommandType)
    ensures
        r matches HistoryCommandType::ReplaceState { url } && url@ == told_url(args@),
{
    HistoryCommandType::ReplaceState { url: arg::text(args, 2) }
}

/// The command of `history.back()`.
pub fn back() -> (r: HistoryCommandType)
    ensures
        r == HistoryCommandType::Back,
{
    HistoryCommandType::Back
}

/// The command of `history.forward()`.
pub fn forward() -> (r: HistoryCommandType)
    ensures
        r == HistoryCommandType::Forward,
{
    HistoryCommandType::Forward
}

/// The command of `history.go(delta)`: the number without its fraction, zero
/// where none is given.
pub fn go(args: &[Arg]) -> (r: HistoryCommandType)
    ensures
        r matches HistoryCommandType::Go { delta } && delta == told_delta(args@),
{
    HistoryCommandType::Go { delta: double::to_i32(arg::number_or_zero(args, 0)) }
}

/// The URL of a new state is the third argument, whatever stands before it; no
/// string there is the empty URL.
pub proof fn lemma_told_url(state: Arg, title: Arg, url: Arg, rest: Seq<Arg>)
    ensures
        url.kind matches arg::Kind::Text(t) ==> told_url(seq![state, title, url] + rest) == t@,
        !(url.kind is Text) ==> told_url(seq![state, title, url] + rest).len() == 0,
        told_url(seq![state, title]).len() == 0,
{
}

/// A script goes as far as the number says, without its fraction and within 32
/// bits; without a number it goes nowhere.
pub proof fn lemma_told_delta(delta: Arg, rest: Seq<Arg>)
    ensures
        ({
            let args = seq![delta] + rest;
            &&& delta.kind matches arg::Kind::Number(bits) ==> (-0x8000_0000 <= double::truncated(
                bits,
            ) <= 0x7fff_ffff ==> told_delta(args) == double::truncated(bits))
            &&& !(delta.kind is Number) ==> told_delta(args) == 0
            &&& -0x8000_0000 <= told_delta(args) <= 0x7fff_ffff
        }),
        told_delta(Seq::empty()) == 0,
{
    assert(double::truncated(0) == 0) by {
        assert(double::exponent(0) == 0);
    }
}

} // verus!
