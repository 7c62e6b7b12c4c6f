//! Plain-value model of a DNS response: the records the resolver reads, with
//! their data already rendered as text.

use vstd::prelude::*;

verus! {

/// The kind of record a lookup asks for.
#[derive(Copy, Clone, Debug, PartialEq, Eq, Hash, Structural)]
pub enum QueryType {
    A,
    AAAA,
    PTR,
    NS,
}

impl QueryType {
    /// The record-type number used on the wire.
    pub open spec fn spec_wire_type(self) -> u16 {
        match self {
            QueryType::A => 1,
            QueryType::NS => 2,
            QueryType::PTR => 12,
            QueryType::AAAA => 28,
        }
    }

    /// The record-type number used on the wire.
    pub fn wire_type(self) -> (code: u16)
        ensures
            code == self.spec_wire_type(),
    {
        match self {
            QueryType::A => 1,
            QueryType::NS => 2,
            QueryType::PTR => 12,
            QueryType::AAAA => 28,
        }
    }

    /// The query type with the given wire number, if it is one of the four.
    pub fn from_wire_type(code: u16) -> (q: Option<QueryType>)
        ensures
            q is Some <==> (code == 1 || code == 2 || code == 12 || code == 28),
            q is Some ==> q->0.spec_wire_type() == code,
    {
        if code == 1 {
            Some(QueryType::A)
        } else if code == 2 {
            Some(QueryType::NS)
        } else if code == 12 {
            Some(QueryType::PTR)
        } else if code == 28 {
            Some(QueryType::AAAA)
        } else {
            None
        }
    }
}

/// Distinct query types have distinct wire numbers.
pub proof fn lemma_wire_type_injective(p: QueryType, q: QueryType)
    requires
        p.spec_wire_type() == q.spec_wire_type(),
    ensures
        p == q,
{
}

/// The data of one record, as text: a dotted IPv4 address for `A`, the
/// canonical IPv6 form for `AAAA`, a fully qualified name for `NS` and `PTR`.
#[derive(Clone, Debug, PartialEq, Eq)]
pub enum RData {
    A(String),
    AAAA(String),
    NS(String),
    PTR(String),
    Other,
}

/// One resource record: its owner name and its data.
#[derive(Clone, Debug, PartialEq, Eq)]
pub struct Record {
    pub name: String,
    pub rdata: RData,
}

/// A response: the answer section and the authority section.
#[derive(Clone, Debug, PartialEq, Eq)]
pub struct Message {
    pub answers: Vec<Record>,
    pub name_servers: Vec<Record>,
}

/// The views of a list of strings.
pub open spec fn strings_view(v: Seq<String>) -> Seq<Seq<char>> {
    v.map_values(|s: String| s@)
}

/// The text a record contributes to a lookup of type `qtype`: its data when
/// the data is of that very type, nothing otherwise.
pub open spec fn answer_text(record: Record, qtype: QueryType) -> Option<Seq<char>> {
    match (qtype, record.rdata) {
        (QueryType::A, RData::A(s)) => Some(s@),
        (QueryType::AAAA, RData::AAAA(s)) => Some(s@),
        (QueryType::NS, RData::NS(s)) => Some(s@),
        (QueryType::PTR, RData::PTR(s)) => Some(s@),
        _ => None,
    }
}

/// The texts of the records of type `qtype` among `records`, in order.
pub open spec fn extracted(records: Seq<Record>, qtype: QueryType) -> Seq<Seq<char>>
    decreases records.len(),
{
    if records.len() == 0 {
        Seq::empty()
    } else {
        let before = extracted(records.drop_last(), qtype);
        match answer_text(records.last(), qtype) {
            Some(text) => before.push(text),
            None => before,
        }
    }
}

/// The text a record contributes to a lookup of type `qtype`.
pub fn record_text(record: &Record, qtype: QueryType) -> (r: Option<String>)
    ensures
        r is Some <==> answer_text(*record, qtype) is Some,
        r is Some ==> r->0@ == answer_text(*record, qtype)->0,
{
    match qtype {
        QueryType::A => match &record.rdata {
            RData::A(s) => Some(s.clone()),
            _ => None,
        },
        QueryType::AAAA => match &record.rdata {
            RData::AAAA(s) => Some(s.clone()),
            _ => None,
        },
        QueryType::NS => match &record.rdata {
            RData::NS(s) => Some(s.clone()),
            _ => None,
        },
        QueryType::PTR => match &record.rdata {
            RData::PTR(s) => Some(s.clone()),
            _ => None,
        },
    }
}

impl Message {
    /// The answers of type `qtype`, as text, in the order of the answer
    /// section. Records of any other type are skipped, whatever else the
    /// message holds.
    pub fn extract_answer(&self, qtype: QueryType) -> (out: Vec<String>)
        ensures
            strings_view(out@) == extracted(self.answers@, qtype),
    {
        let mut out: Vec<String> = Vec::new();
        let mut i: usize = 0;
        while i < self.answers.len()
            invariant
                i <= self.answers.len(),
                strings_view(out@) == extracted(self.answers@.subrange(0, i as int), qtype),
            decreases self.answers.len() - i,
        {
            proof {
                let next = self.answers@.subrange(0, i as int + 1);
                assert(next.drop_last() == self.answers@.subrange(0, i as int));
                assert(next.last() == self.answers@[i as int]);
            }
            let ghost before = out@;
            match record_text(&self.answers[i], qtype) {
                Some(text) => {
                    out.push(text);
                    assert(strings_view(out@) == strings_view(before).push(text@));
                },
                None => {},
            }
            i += 1;
        }
        proof {
            assert(self.answers@.subrange(0, self.answers.len() as int) == self.answers@);
        }
        out
    }
}

} // verus!
