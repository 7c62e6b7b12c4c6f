//! One lookup from start to finish: which name to ask for, and what to make
//! of the outcome.

use vstd::prelude::*;
use crate::error::ResolverError;
use crate::message::{extracted, strings_view, Message, QueryType};
use crate::status::ResolveStatus;
use crate::text::{
    append_chars, chars_of, dotted, lemma_split_on_append, lemma_split_on_single, pieces_view, split,
    split_on, string_of,
};

verus! {

/// The labels of the reverse name of `ip`, before the `in-addr.arpa`
/// suffix: the dot-separated pieces of `ip`, last piece first.
pub open spec fn ptr_labels(ip: Seq<char>) -> Seq<Seq<char>> {
    let pieces = split_on(ip, '.');
    Seq::new(pieces.len(), |i: int| pieces[pieces.len() - 1 - i])
}

/// The name queried for a reverse lookup of `ip`: its pieces in reverse
/// order, then `in-addr.arpa`, fully qualified.
pub open spec fn ptr_name_text(ip: Seq<char>) -> Seq<char> {
    dotted(ptr_labels(ip)) + "in-addr.arpa."@
}

/// `name` anchored at the root: with a final dot added unless it has one.
pub open spec fn root_anchored_text(name: Seq<char>) -> Seq<char> {
    if name.len() > 0 && name.last() == '.' {
        name
    } else {
        name.push('.')
    }
}

/// The name queried for a reverse lookup of the dotted address `ip`.
pub fn ptr_name(ip: &str) -> (name: String)
    ensures
        name@ == ptr_name_text(ip@),
{
    let chars = chars_of(ip);
    let pieces = split(&chars, '.');
    let n: usize = pieces.len();
    let mut out: Vec<char> = Vec::new();
    let mut k: usize = 0;
    while k < n
        invariant
            n == pieces.len(),
            k <= n,
            pieces_view(pieces@) == split_on(ip@, '.'),
            out@ == dotted(ptr_labels(ip@).subrange(0, k as int)),
        decreases n - k,
    {
        proof {
            let next = ptr_labels(ip@).subrange(0, k as int + 1);
            assert(next.drop_last() == ptr_labels(ip@).subrange(0, k as int));
            assert(next.last() == pieces_view(pieces@)[n - 1 - k]);
            assert(pieces_view(pieces@)[n - 1 - k] == pieces@[n - 1 - k]@);
        }
        append_chars(&mut out, &pieces[n - 1 - k]);
        out.push('.');
        k += 1;
    }
    proof {
        assert(ptr_labels(ip@).subrange(0, n as int) == ptr_labels(ip@));
    }
    let suffix = chars_of("in-addr.arpa.");
    append_chars(&mut out, &suffix);
    string_of(&out)
}

/// `name` anchored at the root.
pub fn root_anchored(name: &str) -> (r: String)
    ensures
        r@ == root_anchored_text(name@),
{
    let mut chars = chars_of(name);
    let n: usize = chars.len();
    if n == 0 || chars[n - 1] != '.' {
        chars.push('.');
    }
    string_of(&chars)
}

/// What a lookup asks for.
#[derive(Debug, PartialEq, Eq)]
pub enum QueryPlan {
    /// The recursive walk for this reverse name.
    Reverse(String),
    /// The retry loop for this name and record type.
    Simple(String, QueryType),
}

/// Chooses the lookup for an input: a `PTR` input is an address and gets
/// the recursive walk for its reverse name; any other gets the retry loop
/// for the root-anchored name.
pub fn plan_query(name: &str, qtype: QueryType) -> (plan: QueryPlan)
    ensures
        qtype is PTR ==> plan is Reverse && plan->Reverse_0@ == ptr_name_text(name@),
        !(qtype is PTR) ==> plan is Simple && plan->Simple_0@ == root_anchored_text(name@)
            && plan->Simple_1 == qtype,
{
    match qtype {
        QueryType::PTR => QueryPlan::Reverse(ptr_name(name)),
        _ => QueryPlan::Simple(root_anchored(name), qtype),
    }
}

/// The status a finished lookup reports: `Success` for at least one answer,
/// `Error` for a wire-level failure, `Failure` for everything else.
pub open spec fn status_of(result: Result<Vec<String>, ResolverError>) -> ResolveStatus {
    match result {
        Ok(answers) => if answers@.len() == 0 {
            ResolveStatus::Failure
        } else {
            ResolveStatus::Success
        },
        Err(ResolverError::DnsClientError(_)) => ResolveStatus::Error,
        Err(_) => ResolveStatus::Failure,
    }
}

/// The status a finished lookup reports.
pub fn report_status(result: &Result<Vec<String>, ResolverError>) -> (status: ResolveStatus)
    ensures
        status == status_of(*result),
        !(status is Started),
{
    match result {
        Ok(answers) => {
            if answers.len() == 0 {
                ResolveStatus::Failure
            } else {
                ResolveStatus::Success
            }
        },
        Err(ResolverError::DnsClientError(_)) => ResolveStatus::Error,
        Err(_) => ResolveStatus::Failure,
    }
}

/// Turns the failures a batch shrugs off into an empty success: a timeout,
/// an unresolved name server and an exhausted walk yield no answers; a
/// wire-level failure stays an error; answers pass through untouched.
pub fn partial_ok(result: Result<Vec<String>, ResolverError>) -> (r: Result<
    Vec<String>,
    ResolverError,
>)
    ensures
        match result {
            Ok(answers) => r == Ok::<Vec<String>, ResolverError>(answers),
            Err(ResolverError::DnsClientError(text)) => r == Err::<Vec<String>, ResolverError>(
                ResolverError::DnsClientError(text),
            ),
            Err(_) => r is Ok && r->Ok_0@.len() == 0,
        },
{
    match result {
        Ok(answers) => Ok(answers),
        Err(ResolverError::DnsClientError(text)) => Err(ResolverError::DnsClientError(text)),
        Err(_) => Ok(Vec::new()),
    }
}

/// What is left of a lookup once it is over.
#[derive(Debug, PartialEq, Eq)]
pub struct Resolution {
    /// The completion to report.
    pub status: ResolveStatus,
    /// The answers, or the error that surfaces.
    pub answers: Result<Vec<String>, ResolverError>,
}

/// The answers of type `qtype` in the outcome of a lookup.
pub open spec fn answers_of(outcome: Result<Message, ResolverError>, qtype: QueryType) -> Result<
    Seq<Seq<char>>,
    ResolverError,
> {
    match outcome {
        Ok(message) => Ok(extracted(message.answers@, qtype)),
        Err(e) => Err(e),
    }
}

/// Concludes a lookup: extracts the answers of the requested type from the
/// response, picks the status to report, and turns the failures a batch
/// shrugs off into an empty success.
pub fn conclude(outcome: Result<Message, ResolverError>, qtype: QueryType) -> (r: Resolution)
    ensures
        match answers_of(outcome, qtype) {
            Ok(texts) => r.answers is Ok && strings_view(r.answers->Ok_0@) == texts && r.status == (
            if texts.len() == 0 {
                ResolveStatus::Failure
            } else {
                ResolveStatus::Success
            }),
            Err(ResolverError::DnsClientError(text)) => r.status is Error && r.answers == Err::<
                Vec<String>,
                ResolverError,
            >(ResolverError::DnsClientError(text)),
            Err(_) => r.status is Failure && r.answers is Ok && r.answers->Ok_0@.len() == 0,
        },
{
    let extracted: Result<Vec<String>, ResolverError> = match outcome {
        Ok(message) => Ok(message.extract_answer(qtype)),
        Err(e) => Err(e),
    };
    let status = report_status(&extracted);
    proof {
        if extracted is Ok {
            assert(strings_view(extracted->Ok_0@).len() == extracted->Ok_0@.len());
        }
    }
    Resolution { status, answers: partial_ok(extracted) }
}

/// Reverse-name law: for an address of four dot-separated parts, the name
/// queried is the four parts in reverse order, each followed by a dot, then
/// `in-addr.arpa.`
pub proof fn lemma_ptr_name_of_quad(a: Seq<char>, b: Seq<char>, c: Seq<char>, d: Seq<char>)
    requires
        !a.contains('.'),
        !b.contains('.'),
        !c.contains('.'),
        !d.contains('.'),
    ensures
        ptr_name_text(a + seq!['.'] + b + seq!['.'] + c + seq!['.'] + d) == d + seq!['.'] + c
            + seq!['.'] + b + seq!['.'] + a + seq!['.'] + "in-addr.arpa."@,
{
    let dot = seq!['.'];
    let ip = a + dot + b + dot + c + dot + d;
    lemma_split_on_single(a, '.');
    lemma_split_on_append(a, b, '.');
    lemma_split_on_append(a + dot + b, c, '.');
    lemma_split_on_append(a + dot + b + dot + c, d, '.');
    assert(split_on(ip, '.') == seq![a, b, c, d]);
    let labels = ptr_labels(ip);
    assert(labels == seq![d, c, b, a]);
    let l1 = seq![d];
    let l2 = seq![d, c];
    let l3 = seq![d, c, b];
    assert(l1.drop_last() == Seq::<Seq<char>>::empty());
    assert(l2.drop_last() == l1);
    assert(l3.drop_last() == l2);
    assert(labels.drop_last() == l3);
    assert(dotted(l1) == d + dot) by {
        assert(dotted(l1.drop_last()) == Seq::<char>::empty());
        assert(Seq::<char>::empty() + d + dot == d + dot);
    }
    assert(dotted(l2) == d + dot + c + dot);
    assert(dotted(l3) == d + dot + c + dot + b + dot);
    assert(dotted(labels) == d + dot + c + dot + b + dot + a + dot);
}

} // verus!
