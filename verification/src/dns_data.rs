//! A record's data sorted by what it is: a name, an IPv4 address, or an
//! IPv6 address.

use vstd::prelude::*;
use crate::message::{Message, RData, Record};
use crate::status::ResolveStatus;

verus! {

/// What one answer record holds, each kind in its own slot.
#[derive(Debug, PartialEq, Eq)]
pub struct DnsData {
    pub name: Option<String>,
    pub ipv4: Option<String>,
    pub ipv6: Option<String>,
}

/// The data of `record` in its slot: the name of a `PTR` record, the
/// address of an `A` or `AAAA` record; the other slots, and all slots for a
/// record of another type, are empty.
pub open spec fn data_of(record: Record) -> (Option<Seq<char>>, Option<Seq<char>>, Option<Seq<char>>) {
    match record.rdata {
        RData::PTR(name) => (Some(name@), None, None),
        RData::A(ip) => (None, Some(ip@), None),
        RData::AAAA(ip) => (None, None, Some(ip@)),
        _ => (None, None, None),
    }
}

/// The text in a slot.
pub open spec fn slot_view(slot: Option<String>) -> Option<Seq<char>> {
    match slot {
        Some(s) => Some(s@),
        None => None,
    }
}

impl DnsData {
    /// The three slots, as text.
    pub open spec fn slots(&self) -> (Option<Seq<char>>, Option<Seq<char>>, Option<Seq<char>>) {
        (slot_view(self.name), slot_view(self.ipv4), slot_view(self.ipv6))
    }

    /// Sorts the data of `record` into its slot.
    pub fn from(record: &Record) -> (d: DnsData)
        ensures
            d.slots() == data_of(*record),
    {
        match &record.rdata {
            RData::PTR(name) => DnsData { name: Some(name.clone()), ipv4: None, ipv6: None },
            RData::A(ip) => DnsData { name: None, ipv4: Some(ip.clone()), ipv6: None },
            RData::AAAA(ip) => DnsData { name: None, ipv4: None, ipv6: Some(ip.clone()) },
            _ => DnsData { name: None, ipv4: None, ipv6: None },
        }
    }

    /// Takes the name out, leaving its slot empty.
    pub fn take_name(&mut self) -> (r: Option<String>)
        ensures
            r == old(self).name,
            final(self).name is None,
            final(self).ipv4 == old(self).ipv4,
            final(self).ipv6 == old(self).ipv6,
    {
        self.name.take()
    }

    /// Takes the address out: the IPv4 address if there is one, the IPv6
    /// address otherwise. Both address slots are left empty.
    pub fn take_ip(&mut self) -> (r: Option<String>)
        ensures
            r == if old(self).ipv4 is Some {
                old(self).ipv4
            } else {
                old(self).ipv6
            },
            final(self).ipv4 is None,
            final(self).ipv6 is None,
            final(self).name == old(self).name,
    {
        let v4 = self.ipv4.take();
        let v6 = self.ipv6.take();
        match v4 {
            Some(ip) => Some(ip),
            None => v6,
        }
    }
}

/// The answers of `msg`, each sorted into its slot, in order.
pub fn msg_to_vec_dnsdata(msg: &Message) -> (out: Vec<DnsData>)
    ensures
        out@.len() == msg.answers@.len(),
        forall|i: int| 0 <= i < out@.len() ==> (#[trigger] out@[i]).slots() == data_of(msg.answers@[i]),
{
    let mut out: Vec<DnsData> = Vec::new();
    let mut i: usize = 0;
    while i < msg.answers.len()
        invariant
            i <= msg.answers.len(),
            out@.len() == i,
            forall|j: int| 0 <= j < i ==> (#[trigger] out@[j]).slots() == data_of(msg.answers@[j]),
        decreases msg.answers.len() - i,
    {
        out.push(DnsData::from(&msg.answers[i]));
        i += 1;
    }
    out
}

/// The answers of the response, each sorted into its slot; nothing
/// without a response.
pub fn opt_msg_to_vec_dnsdata(msg: &Option<Message>) -> (out: Option<Vec<DnsData>>)
    ensures
        out is Some <==> msg is Some,
        out is Some ==> out->0@.len() == msg->0.answers@.len() && forall|i: int|
            0 <= i < out->0@.len() ==> (#[trigger] out->0@[i]).slots() == data_of(
                msg->0.answers@[i],
            ),
{
    match msg {
        Some(message) => Some(msg_to_vec_dnsdata(message)),
        None => None,
    }
}

/// The completion to report for a lookup that yields `data`: `Success`
/// when there is any, `Failure` when there is none.
pub fn report_status<T>(data: &Option<T>) -> (status: ResolveStatus)
    ensures
        status == if data is Some {
            ResolveStatus::Success
        } else {
            ResolveStatus::Failure
        },
{
    match data {
        Some(_) => ResolveStatus::Success,
        None => ResolveStatus::Failure,
    }
}

} // verus!
