//! What the embedding program supplies: reading and printing numbers, and
//! primitives that compute with floating point or perform I/O.

use vstd::prelude::*;
use crate::expr::{Expr, SExpr};

verus! {

/// The services an embedding program supplies to the interpreter.  The
/// interpreter makes no assumption about what these return; it records
/// each request and answer (see [`Request`]).
pub trait Host {
    /// Reads a numeric literal the way `f64::from_str` does, giving the bit
    /// pattern of the value, or `None` when `text` is not a number.
    fn read_number(&self, text: &str) -> Option<u64>;

    /// Formats a number the way `f64`'s `Display` does.
    fn show_number(&self, bits: u64) -> String;

    /// The names under which the host's primitives are registered.
    fn native_names(&self) -> Vec<String>;

    /// Applies the host primitive `name` to evaluated arguments.
    fn call_native(&self, name: &str, args: &[Expr]) -> Result<Expr, String>;
}

/// A request the evaluator makes of the host.
pub enum Request {
    /// `call_native` of a primitive with evaluated arguments.
    Native(Seq<char>, Seq<SExpr>),
    /// `read_number` of a string (by the reader, for each token, and by
    /// `string->number`).
    ReadNumber(Seq<char>),
    /// `show_number` of a number (`number->string`).
    ShowNumber(u64),
    /// `native_names` (when the global environment is made); the answer is
    /// the list of the names, as strings.
    NativeNames,
}

/// The answer that records the names `ns`.
pub open spec fn names_value(ns: Seq<Seq<char>>) -> SExpr {
    SExpr::List(ns.map_values(|n: Seq<char>| SExpr::Str(n)))
}

/// The names an answer to [`Request::NativeNames`] gives.
pub open spec fn names_of(a: Result<SExpr, Seq<char>>) -> Seq<Seq<char>> {
    match a {
        Ok(SExpr::List(items)) => items.map_values(|x: SExpr| x->Str_0),
        _ => Seq::empty(),
    }
}

pub proof fn lemma_names_round_trip(ns: Seq<Seq<char>>)
    ensures names_of(Ok(names_value(ns))) == ns,
{
    assert(names_of(Ok(names_value(ns))) =~= ns);
}

/// A request and the host's answer: a value, or the message of a failure
/// (empty when the host gives none).
pub type Exchange = (Request, Result<SExpr, Seq<char>>);

/// Answers of a host: `o(k)` is its answer to the `k`-th request made of
/// it.  A host may answer the same request differently at different times
/// (reading input, for instance).
pub type Answers = spec_fn(nat) -> Result<SExpr, Seq<char>>;

/// The answers `o` are those given in every exchange of `log`.
pub open spec fn consistent(log: Seq<Exchange>, o: Answers) -> bool {
    forall|i: int| 0 <= i < log.len() ==> o(i as nat) == (#[trigger] log[i]).1
}

/// The answers recorded in `log`, by position (a failure past its end).
pub open spec fn answers_of(log: Seq<Exchange>) -> Answers {
    |k: nat| if k < log.len() { log[k as int].1 } else { Err(Seq::empty()) }
}

/// Every record of exchanges is given by some host: the one answering as
/// recorded.
pub proof fn law_log_answerable(log: Seq<Exchange>)
    ensures consistent(log, answers_of(log)),
{
}

/// Answers agreeing with a record extended by one exchange agree with the
/// record and give that exchange's answer next.
pub proof fn lemma_consistent_push(log: Seq<Exchange>, x: Exchange, o: Answers)
    ensures consistent(log.push(x), o) <==> (consistent(log, o) && o(log.len()) == x.1),
{
    if consistent(log.push(x), o) {
        assert forall|i: int| 0 <= i < log.len() implies o(i as nat) == (#[trigger] log[i]).1 by {
            assert(log.push(x)[i] == log[i]);
        }
        assert(log.push(x)[log.len() as int] == x);
    }
    if consistent(log, o) && o(log.len()) == x.1 {
        assert forall|i: int| 0 <= i < log.push(x).len() implies o(i as nat) == (#[trigger] log.push(x)[i]).1 by {
            if i < log.len() { assert(log.push(x)[i] == log[i]); }
        }
    }
}

} // verus!
