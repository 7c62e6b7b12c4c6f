//! The recursive reverse-lookup walk, as a state machine. The walk keeps a
//! stack of name servers still to ask and the list of those already asked;
//! the caller performs the lookups it is told to and feeds the outcomes back.

use vstd::prelude::*;
use vstd::seq_lib::*;
use vstd::set_lib::*;
use crate::addr::{addr_of_text, parse_addr_chars, ServerAddr};
use crate::error::ResolverError;
use crate::message::{extracted, strings_view, Message, QueryType, Record};
use crate::text::chars_of;

verus! {

/// A name server: one whose address is known, or one known only by name,
/// which has to be looked up before it can be asked.
#[derive(Debug, Clone, PartialEq, Eq, Hash)]
pub enum NS {
    Known(ServerAddr),
    Unknown(String),
}

/// What identifies a name server: the variant and its payload.
pub enum NsView {
    Known(ServerAddr),
    Unknown(Seq<char>),
}

impl View for NS {
    type V = NsView;

    open spec fn view(&self) -> NsView {
        match self {
            NS::Known(addr) => NsView::Known(*addr),
            NS::Unknown(name) => NsView::Unknown(name@),
        }
    }
}

/// The identities of a list of name servers.
pub open spec fn ns_views(list: Seq<NS>) -> Seq<NsView> {
    list.map_values(|ns: NS| ns@)
}

/// The root name, which has no labels: written as nothing or as a lone dot.
pub open spec fn is_root_name(name: Seq<char>) -> bool {
    name.len() == 0 || name == seq!['.']
}

/// The owner names of `records`, in order.
pub open spec fn owner_names(records: Seq<Record>) -> Seq<Seq<char>> {
    records.map_values(|r: Record| r.name@)
}

/// The stack after the name servers named by `names` were offered to it in
/// order: a name goes on top unless it is the root, was already asked, or is
/// already waiting.
pub open spec fn pushed(stack: Seq<NsView>, seen: Seq<NsView>, names: Seq<Seq<char>>) -> Seq<
    NsView,
>
    decreases names.len(),
{
    if names.len() == 0 {
        stack
    } else {
        let before = pushed(stack, seen, names.drop_last());
        let ns = NsView::Unknown(names.last());
        if is_root_name(names.last()) || seen.contains(ns) || before.contains(ns) {
            before
        } else {
            before.push(ns)
        }
    }
}

/// The address that a name-server lookup yields: the first `A` answer of
/// the response, read with port 53, if there is one and it is an address.
pub open spec fn ns_addr_of(message: Message) -> Option<ServerAddr> {
    let answers = extracted(message.answers@, QueryType::A);
    if answers.len() == 0 {
        None
    } else {
        addr_of_text(answers[0] + seq![':', '5', '3'])
    }
}

impl NS {
    /// A copy that identifies the same server.
    pub fn duplicate(&self) -> (r: NS)
        ensures
            r@ == self@,
    {
        match self {
            NS::Known(addr) => NS::Known(*addr),
            NS::Unknown(name) => NS::Unknown(name.clone()),
        }
    }

    /// True when both identify the same server.
    pub fn same(&self, other: &NS) -> (b: bool)
        ensures
            b == (self@ == other@),
    {
        match self {
            NS::Known(a) => match other {
                NS::Known(b) => *a == *b,
                NS::Unknown(_) => false,
            },
            NS::Unknown(a) => match other {
                NS::Known(_) => false,
                NS::Unknown(b) => *a == *b,
            },
        }
    }

    /// The address or the name, as text.
    pub fn to_string(&self) -> (s: String)
        ensures
            match self {
                NS::Known(addr) => s@ == addr.text(),
                NS::Unknown(name) => s@ == name@,
            },
    {
        match self {
            NS::Known(addr) => addr.to_string(),
            NS::Unknown(name) => name.clone(),
        }
    }

    /// The server named `name`; the root name names none.
    pub fn try_from(name: &str) -> (r: Result<NS, ()>)
        ensures
            r is Err <==> is_root_name(name@),
            r is Ok ==> r->Ok_0@ == NsView::Unknown(name@),
    {
        let chars = chars_of(name);
        if chars.len() == 0 {
            return Err(());
        }
        if chars.len() == 1 && chars[0] == '.' {
            assert(chars@ == seq!['.']);
            return Err(());
        }
        assert(!is_root_name(name@)) by {
            if name@ == seq!['.'] {
                assert(seq!['.'].len() == 1);
                assert(seq!['.'][0] == '.');
            }
        }
        Ok(NS::Unknown(name.to_owned()))
    }

    /// The server at `addr`.
    pub fn from(addr: ServerAddr) -> (r: NS)
        ensures
            r == NS::Known(addr),
    {
        NS::Known(addr)
    }
}

/// True when `list` holds a server identified as `ns` is.
pub fn contains_ns(list: &Vec<NS>, ns: &NS) -> (found: bool)
    ensures
        found == ns_views(list@).contains(ns@),
{
    let mut i: usize = 0;
    while i < list.len()
        invariant
            i <= list.len(),
            forall|j: int| 0 <= j < i ==> ns_views(list@)[j] != ns@,
        decreases list.len() - i,
    {
        if list[i].same(ns) {
            assert(ns_views(list@)[i as int] == ns@);
            return true;
        }
        i += 1;
    }
    false
}

/// The address that a name-server lookup yields, if any.
pub fn ns_addr(message: &Message) -> (r: Option<ServerAddr>)
    ensures
        r == ns_addr_of(*message),
{
    let answers = message.extract_answer(QueryType::A);
    if answers.len() == 0 {
        return None;
    }
    assert(strings_view(answers@)[0] == answers@[0]@);
    let mut chars = chars_of(answers[0].as_str());
    chars.push(':');
    chars.push('5');
    chars.push('3');
    assert(chars@ == answers@[0]@ + seq![':', '5', '3']);
    parse_addr_chars(&chars)
}

/// What the lookup of a name server's address comes to: the address, a
/// wire-level failure, or, for anything else, `NameServerNotResolved`.
pub open spec fn ns_lookup_of(outcome: Result<Message, ResolverError>) -> Result<
    ServerAddr,
    ResolverError,
> {
    match outcome {
        Ok(message) => match ns_addr_of(message) {
            Some(addr) => Ok(addr),
            None => Err(ResolverError::NameServerNotResolved),
        },
        Err(ResolverError::DnsClientError(text)) => Err(ResolverError::DnsClientError(text)),
        Err(_) => Err(ResolverError::NameServerNotResolved),
    }
}

/// Reads the address of a name server off the outcome of looking it up. A
/// response whose first `A` answer is an address gives that address with
/// port 53. A wire-level failure stays what it is. Anything else (no
/// response, no `A` answer, or one that is no address) leaves the server
/// unresolved.
pub fn ns_lookup(outcome: Result<Message, ResolverError>) -> (r: Result<ServerAddr, ResolverError>)
    ensures
        r == ns_lookup_of(outcome),
{
    match outcome {
        Ok(message) => match ns_addr(&message) {
            Some(addr) => Ok(addr),
            None => Err(ResolverError::NameServerNotResolved),
        },
        Err(ResolverError::DnsClientError(text)) => Err(ResolverError::DnsClientError(text)),
        Err(_) => Err(ResolverError::NameServerNotResolved),
    }
}

/// State of one walk.
#[derive(Debug, PartialEq, Eq)]
pub struct RecurseState {
    pub nameservers: Vec<NS>,
    pub visited: Vec<NS>,
    pub answer: Option<Message>,
}

/// What a walk is made of: the servers still to ask (the next one last), the
/// servers already asked (in the order they were asked), and the answer.
pub struct WalkView {
    pub stack: Seq<NsView>,
    pub seen: Seq<NsView>,
    pub answer: Option<Message>,
}

impl WalkView {
    /// No server waits twice, none was asked twice, and none that was asked
    /// waits again.
    pub open spec fn wf(self) -> bool {
        &&& self.stack.no_duplicates()
        &&& self.seen.no_duplicates()
        &&& forall|i: int, j: int|
            0 <= i < self.stack.len() && 0 <= j < self.seen.len() ==> self.stack[i]
                != self.seen[j]
    }

    /// Every server the walk knows of belongs to `universe`.
    pub open spec fn within(self, universe: Set<NsView>) -> bool {
        &&& forall|i: int| 0 <= i < self.stack.len() ==> universe.contains(self.stack[i])
        &&& forall|j: int| 0 <= j < self.seen.len() ==> universe.contains(self.seen[j])
    }

    /// The walk with the top of the stack moved to the servers asked.
    pub open spec fn popped(self) -> WalkView
        recommends
            self.stack.len() > 0,
    {
        WalkView {
            stack: self.stack.drop_last(),
            seen: self.seen.push(self.stack.last()),
            answer: self.answer,
        }
    }

    /// The walk once the response `message` has been taken in: the owner
    /// names of its authority records are offered to the stack, and a
    /// message with at least one answer record becomes the answer.
    pub open spec fn absorbed(self, message: Message) -> WalkView {
        WalkView {
            stack: pushed(self.stack, self.seen, owner_names(message.name_servers@)),
            seen: self.seen,
            answer: if message.answers@.len() > 0 {
                Some(message)
            } else {
                self.answer
            },
        }
    }

    /// `next` and `action` are how the walk goes on from here: with an
    /// answer it finishes with it; with no server left it finishes with
    /// `NotFound`; otherwise the top of the stack moves to the servers asked
    /// and is queried, or looked up first when only its name is known.
    pub open spec fn continues_as(self, next: WalkView, action: WalkAction) -> bool {
        &&& next.answer is None
        &&& self.answer is Some ==> action == WalkAction::Finish(Ok(self.answer->0)) && next.stack
            == self.stack && next.seen == self.seen
        &&& self.answer is None && self.stack.len() == 0 ==> action == WalkAction::Finish(
            Err(ResolverError::NotFound),
        ) && next.stack == self.stack && next.seen == self.seen
        &&& self.answer is None && self.stack.len() > 0 ==> next == self.popped()
            && match self.stack.last() {
            NsView::Known(addr) => action == WalkAction::Query(addr),
            NsView::Unknown(name) => action is ResolveNs && action->ResolveNs_0@ == name,
        }
    }
}

impl View for RecurseState {
    type V = WalkView;

    open spec fn view(&self) -> WalkView {
        WalkView {
            stack: ns_views(self.nameservers@),
            seen: ns_views(self.visited@),
            answer: self.answer,
        }
    }
}

/// What the caller has to do next.
#[derive(Debug, PartialEq, Eq)]
pub enum WalkAction {
    /// Look up the `A` record of this name-server name with the retry loop
    /// at the server the walk started from, then call
    /// [`RecurseState::ns_resolved`].
    ResolveNs(String),
    /// Run the retry loop for the reverse name at this address, then call
    /// [`RecurseState::response`].
    Query(ServerAddr),
    /// The walk is over, with this result.
    Finish(Result<Message, ResolverError>),
}

impl RecurseState {
    /// The servers still to ask, the next one last.
    pub open spec fn stack(&self) -> Seq<NsView> {
        ns_views(self.nameservers@)
    }

    /// The servers already asked, in the order they were asked.
    pub open spec fn seen(&self) -> Seq<NsView> {
        ns_views(self.visited@)
    }

    /// See [`WalkView::wf`].
    pub open spec fn wf(&self) -> bool {
        self@.wf()
    }

    /// A walk that starts at `server`.
    pub fn new(server: ServerAddr) -> (s: RecurseState)
        ensures
            s.stack() == seq![NsView::Known(server)],
            s.seen() == Seq::<NsView>::empty(),
            s.answer is None,
            s.wf(),
    {
        let mut nameservers: Vec<NS> = Vec::new();
        nameservers.push(NS::Known(server));
        let s = RecurseState { nameservers, visited: Vec::new(), answer: None };
        assert(s.stack() == seq![NsView::Known(server)]);
        assert(s.seen() == Seq::<NsView>::empty());
        s
    }

    /// Takes the next server off the stack and marks it as asked.
    pub fn pop_ns(&mut self) -> (r: Option<NS>)
        requires
            old(self).wf(),
        ensures
            final(self).wf(),
            final(self).answer == old(self).answer,
            match r {
                None => old(self).stack().len() == 0 && final(self).stack() == old(self).stack()
                    && final(self).seen() == old(self).seen(),
                Some(ns) => old(self).stack().len() > 0 && ns@ == old(self).stack().last()
                    && final(self).stack() == old(self).stack().drop_last() && final(self).seen()
                    == old(self).seen().push(ns@),
            },
    {
        let ghost stack0 = self.stack();
        let ghost seen0 = self.seen();
        match self.nameservers.pop() {
            None => None,
            Some(ns) => {
                let copy = ns.duplicate();
                self.visited.push(copy);
                proof {
                    assert(ns@ == stack0.last());
                    assert(self.stack() == stack0.drop_last());
                    assert(self.seen() == seen0.push(ns@));
                    assert(self@ == old(self)@.popped());
                    lemma_popped_keeps_order(old(self)@);
                }
                Some(ns)
            },
        }
    }

    /// Offers the owner names of `records` to the stack, in order: a name
    /// goes on top unless it is the root, was already asked, or is already
    /// waiting.
    pub fn push_nameservers(&mut self, records: &Vec<Record>)
        requires
            old(self).wf(),
        ensures
            final(self).wf(),
            final(self).answer == old(self).answer,
            final(self).seen() == old(self).seen(),
            final(self).stack() == pushed(
                old(self).stack(),
                old(self).seen(),
                owner_names(records@),
            ),
    {
        let ghost stack0 = self.stack();
        let ghost seen0 = self.seen();
        let ghost answer0 = self.answer;
        let mut i: usize = 0;
        while i < records.len()
            invariant
                i <= records.len(),
                self.wf(),
                self.answer == answer0,
                self.seen() == seen0,
                self.stack() == pushed(stack0, seen0, owner_names(records@.subrange(0, i as int))),
            decreases records.len() - i,
        {
            proof {
                let next = owner_names(records@.subrange(0, i as int + 1));
                assert(next.drop_last() == owner_names(records@.subrange(0, i as int)));
                assert(next.last() == records@[i as int].name@);
            }
            match NS::try_from(records[i].name.as_str()) {
                Ok(ns) => {
                    if !contains_ns(&self.visited, &ns) && !contains_ns(&self.nameservers, &ns) {
                        let ghost before = self.stack();
                        self.nameservers.push(ns);
                        proof {
                            assert(self.stack() == before.push(ns@));
                            lemma_push_keeps_order(before, seen0, ns@);
                        }
                    }
                },
                Err(_) => {},
            }
            i += 1;
        }
        proof {
            assert(records@.subrange(0, records.len() as int) == records@);
        }
    }

    /// Records `message` as the answer of the walk.
    pub fn add_answer(&mut self, message: Message)
        ensures
            final(self).answer == Some(message),
            final(self).nameservers == old(self).nameservers,
            final(self).visited == old(self).visited,
    {
        self.answer = Some(message);
    }

    /// Decides what comes next. With an answer recorded the walk finishes
    /// with it; with no server left it finishes with `NotFound`; otherwise
    /// the next server is taken off the stack, marked as asked, and either
    /// queried directly or looked up first.
    pub fn next_action(&mut self) -> (action: WalkAction)
        requires
            old(self).wf(),
        ensures
            final(self).wf(),
            old(self)@.continues_as(final(self)@, action),
    {
        if self.answer.is_some() {
            let answer = self.answer.take();
            return WalkAction::Finish(Ok(answer.unwrap()));
        }
        match self.pop_ns() {
            None => WalkAction::Finish(Err(ResolverError::NotFound)),
            Some(NS::Known(addr)) => WalkAction::Query(addr),
            Some(NS::Unknown(name)) => WalkAction::ResolveNs(name),
        }
    }

    /// Takes the outcome of looking up a name server's address, as
    /// [`ns_lookup`] reads it. With an address the walk queries it. A
    /// wire-level failure ends the walk with that error. An unresolved
    /// server is passed over, and the walk goes on as
    /// [`RecurseState::next_action`] says.
    pub fn ns_resolved(&mut self, outcome: Result<Message, ResolverError>) -> (action: WalkAction)
        requires
            old(self).wf(),
        ensures
            final(self).wf(),
            match ns_lookup_of(outcome) {
                Ok(addr) => action == WalkAction::Query(addr) && final(self)@ == old(self)@,
                Err(ResolverError::NameServerNotResolved) => old(self)@.continues_as(
                    final(self)@,
                    action,
                ),
                Err(e) => action == WalkAction::Finish(Err(e)) && final(self)@ == old(self)@,
            },
    {
        match ns_lookup(outcome) {
            Ok(addr) => WalkAction::Query(addr),
            Err(ResolverError::NameServerNotResolved) => self.next_action(),
            Err(e) => WalkAction::Finish(Err(e)),
        }
    }

    /// Takes the outcome of querying a name server for the reverse name. A
    /// failure ends the walk with that error. A response has the owner names
    /// of its authority records offered to the stack and, if it holds any
    /// answer record, becomes the answer; the walk then goes on as
    /// [`RecurseState::next_action`] says.
    pub fn response(&mut self, outcome: Result<Message, ResolverError>) -> (action: WalkAction)
        requires
            old(self).wf(),
        ensures
            final(self).wf(),
            match outcome {
                Err(e) => action == WalkAction::Finish(Err(e)) && final(self)@ == old(self)@,
                Ok(message) => old(self)@.absorbed(message).continues_as(final(self)@, action),
            },
    {
        match outcome {
            Err(e) => WalkAction::Finish(Err(e)),
            Ok(message) => {
                self.push_nameservers(&message.name_servers);
                if message.answers.len() > 0 {
                    self.add_answer(message);
                }
                assert(self@ == old(self)@.absorbed(message));
                self.next_action()
            },
        }
    }
}

/// Putting a server on the stack that neither waits nor was asked keeps
/// the walk in order.
pub proof fn lemma_push_keeps_order(stack: Seq<NsView>, seen: Seq<NsView>, ns: NsView)
    requires
        (WalkView { stack, seen, answer: None }).wf(),
        !stack.contains(ns),
        !seen.contains(ns),
    ensures
        (WalkView { stack: stack.push(ns), seen, answer: None }).wf(),
{
    let after = stack.push(ns);
    assert forall|a: int, b: int|
        0 <= a < after.len() && 0 <= b < after.len() && a != b implies after[a] != after[b] by {
        if a == stack.len() {
            assert(stack[b] != ns);
        } else if b == stack.len() {
            assert(stack[a] != ns);
        }
    }
    assert forall|a: int, b: int| 0 <= a < after.len() && 0 <= b < seen.len() implies after[a]
        != seen[b] by {
        if a == stack.len() {
            assert(seen[b] != ns);
        } else {
            assert(stack[a] != seen[b]);
        }
    }
}

/// Offering names to a stack keeps it free of repetitions and apart from the
/// servers already asked, and only ever adds on top.
pub proof fn lemma_pushed_keeps_order(stack: Seq<NsView>, seen: Seq<NsView>, names: Seq<Seq<char>>)
    requires
        (WalkView { stack, seen, answer: None }).wf(),
    ensures
        (WalkView { stack: pushed(stack, seen, names), seen, answer: None }).wf(),
        pushed(stack, seen, names).len() >= stack.len(),
        pushed(stack, seen, names).subrange(0, stack.len() as int) == stack,
    decreases names.len(),
{
    if names.len() > 0 {
        lemma_pushed_keeps_order(stack, seen, names.drop_last());
        let before = pushed(stack, seen, names.drop_last());
        let ns = NsView::Unknown(names.last());
        let after = pushed(stack, seen, names);
        if after != before {
            assert(after == before.push(ns));
            lemma_push_keeps_order(before, seen, ns);
            assert(after.subrange(0, stack.len() as int) == before.subrange(
                0,
                stack.len() as int,
            ));
        }
    } else {
        assert(stack.subrange(0, stack.len() as int) == stack);
    }
}

/// Offering names that belong to `universe` to a stack within `universe`
/// leaves it within `universe`.
pub proof fn lemma_pushed_within(
    stack: Seq<NsView>,
    seen: Seq<NsView>,
    names: Seq<Seq<char>>,
    universe: Set<NsView>,
)
    requires
        forall|i: int| 0 <= i < stack.len() ==> universe.contains(stack[i]),
        forall|k: int| 0 <= k < names.len() ==> universe.contains(NsView::Unknown(names[k])),
    ensures
        forall|i: int|
            0 <= i < pushed(stack, seen, names).len() ==> universe.contains(
                pushed(stack, seen, names)[i],
            ),
    decreases names.len(),
{
    if names.len() > 0 {
        let shorter = names.drop_last();
        assert forall|k: int| 0 <= k < shorter.len() implies universe.contains(
            NsView::Unknown(shorter[k]),
        ) by {
            assert(shorter[k] == names[k]);
        }
        lemma_pushed_within(stack, seen, shorter, universe);
        let before = pushed(stack, seen, shorter);
        let after = pushed(stack, seen, names);
        assert(universe.contains(NsView::Unknown(names[names.len() - 1])));
        assert forall|i: int| 0 <= i < after.len() implies universe.contains(after[i]) by {
            if i < before.len() {
                assert(after[i] == before[i]);
            }
        }
    }
}

/// Taking in a response keeps the walk in order: still no server waits
/// twice, none was asked twice, and none that was asked waits again.
pub proof fn lemma_absorbed_keeps_order(walk: WalkView, message: Message)
    requires
        walk.wf(),
    ensures
        walk.absorbed(message).wf(),
        walk.absorbed(message).seen == walk.seen,
{
    lemma_pushed_keeps_order(walk.stack, walk.seen, owner_names(message.name_servers@));
}

/// Going on keeps the walk in order, and asks at most one more server: one
/// that was not asked before.
pub proof fn lemma_continue_keeps_order(walk: WalkView, next: WalkView, action: WalkAction)
    requires
        walk.wf(),
        walk.continues_as(next, action),
    ensures
        next.wf(),
        action is Finish ==> next.seen == walk.seen,
        !(action is Finish) ==> next.seen == walk.seen.push(walk.stack.last())
            && !walk.seen.contains(walk.stack.last()),
{
    if walk.answer is None && walk.stack.len() > 0 {
        lemma_popped_keeps_order(walk);
    }
}

/// A walk whose servers all belong to `universe` stays within it when it
/// takes in a response whose authority records name servers of `universe`
/// only.
pub proof fn lemma_absorbed_within(walk: WalkView, message: Message, universe: Set<NsView>)
    requires
        walk.within(universe),
        forall|k: int|
            0 <= k < message.name_servers@.len() ==> universe.contains(
                NsView::Unknown(#[trigger] message.name_servers@[k].name@),
            ),
    ensures
        walk.absorbed(message).within(universe),
{
    let names = owner_names(message.name_servers@);
    assert forall|k: int| 0 <= k < names.len() implies universe.contains(
        NsView::Unknown(names[k]),
    ) by {
        assert(names[k] == message.name_servers@[k].name@);
    }
    lemma_pushed_within(walk.stack, walk.seen, names, universe);
}

/// Termination law: a walk in order whose servers all belong to a finite
/// `universe` has asked, and still has waiting, no more servers than
/// `universe` holds. Each retry loop for the reverse name asks one server,
/// so a walk over a graph of `n` distinct named servers, started at one
/// known address, runs at most `n + 1` of them, cycles or not.
pub proof fn lemma_walk_bounded(walk: WalkView, universe: Set<NsView>)
    requires
        walk.wf(),
        walk.within(universe),
        universe.finite(),
    ensures
        walk.seen.len() + walk.stack.len() <= universe.len(),
        walk.seen.no_duplicates(),
{
    let all = walk.seen + walk.stack;
    assert forall|i: int, j: int|
        0 <= i < walk.seen.len() && 0 <= j < walk.stack.len() implies walk.seen[i]
        != walk.stack[j] by {
        assert(walk.stack[j] != walk.seen[i]);
    }
    lemma_no_dup_in_concat(walk.seen, walk.stack);
    all.unique_seq_to_set();
    assert forall|x: NsView| all.to_set().contains(x) implies universe.contains(x) by {
        let i = choose|i: int| 0 <= i < all.len() && all[i] == x;
        if i < walk.seen.len() {
            assert(all[i] == walk.seen[i]);
        } else {
            assert(all[i] == walk.stack[i - walk.seen.len()]);
        }
    }
    lemma_len_subset(all.to_set(), universe);
}

/// What asking one server brings.
pub enum Asked {
    /// The server is known only by a name that could not be resolved.
    Unresolved,
    /// The lookup of its address, or the query itself, failed for good.
    Failed(ResolverError),
    /// The server responded.
    Response(Message),
}

/// How far a walk got: the servers it asked, and its result if it finished.
pub struct WalkRun {
    pub asked: nat,
    pub result: Option<Result<Message, ResolverError>>,
}

impl WalkView {
    /// The walk run from here, `events` telling what each server brings
    /// when it is asked, in the order the walk asks them: it finishes with
    /// its answer, or with `NotFound` when no server is left, or with the
    /// failure of a server; it stands still when `events` runs out first.
    pub open spec fn run(self, events: Seq<Asked>) -> WalkRun
        decreases events.len(),
    {
        if self.answer is Some {
            WalkRun { asked: 0, result: Some(Ok(self.answer->0)) }
        } else if self.stack.len() == 0 {
            WalkRun { asked: 0, result: Some(Err(ResolverError::NotFound)) }
        } else if events.len() == 0 {
            WalkRun { asked: 0, result: None }
        } else {
            match events[0] {
                Asked::Failed(e) => WalkRun { asked: 1, result: Some(Err(e)) },
                Asked::Unresolved => {
                    let rest = self.popped().run(events.drop_first());
                    WalkRun { asked: rest.asked + 1, result: rest.result }
                },
                Asked::Response(message) => {
                    let rest = self.popped().absorbed(message).run(events.drop_first());
                    WalkRun { asked: rest.asked + 1, result: rest.result }
                },
            }
        }
    }
}

/// Every authority record of every response in `events` names a server of
/// `universe`.
pub open spec fn refer_within(events: Seq<Asked>, universe: Set<NsView>) -> bool {
    forall|n: int, k: int|
        0 <= n < events.len() && events[n] is Response && 0 <= k
            < events[n]->Response_0.name_servers@.len() ==> universe.contains(
            NsView::Unknown(#[trigger] events[n]->Response_0.name_servers@[k].name@),
        )
}

/// Termination law: over a finite set of servers that refer to one another
/// in any way, cycles included, a walk asks each server at most once: it
/// asks no more servers than the set holds beyond those already asked, and
/// by then it has finished.
pub proof fn lemma_walk_terminates(walk: WalkView, events: Seq<Asked>, universe: Set<NsView>)
    requires
        walk.wf(),
        walk.within(universe),
        universe.finite(),
        refer_within(events, universe),
    ensures
        walk.run(events).asked + walk.seen.len() <= universe.len(),
        walk.run(events).asked <= events.len(),
        events.len() + walk.seen.len() >= universe.len() ==> walk.run(events).result is Some,
    decreases events.len(),
{
    lemma_walk_bounded(walk, universe);
    if walk.answer is None && walk.stack.len() > 0 && events.len() > 0 {
        let rest = events.drop_first();
        assert forall|n: int, k: int|
            0 <= n < rest.len() && rest[n] is Response && 0 <= k
                < rest[n]->Response_0.name_servers@.len() implies universe.contains(
            NsView::Unknown(#[trigger] rest[n]->Response_0.name_servers@[k].name@),
        ) by {
            assert(rest[n] == events[n + 1]);
        }
        let popped = walk.popped();
        lemma_popped_keeps_order(walk);
        lemma_popped_within(walk, universe);
        match events[0] {
            Asked::Failed(_) => {},
            Asked::Unresolved => {
                lemma_walk_terminates(popped, rest, universe);
            },
            Asked::Response(message) => {
                lemma_absorbed_keeps_order(popped, message);
                assert forall|k: int| 0 <= k < message.name_servers@.len() implies universe.contains(
                    NsView::Unknown(#[trigger] message.name_servers@[k].name@),
                ) by {
                    assert(events[0]->Response_0 == message);
                }
                lemma_absorbed_within(popped, message, universe);
                lemma_walk_terminates(popped.absorbed(message), rest, universe);
            },
        }
    }
}

/// Moving the top of the stack to the servers asked keeps the walk in
/// order: the server moved was not asked before.
pub proof fn lemma_popped_keeps_order(walk: WalkView)
    requires
        walk.wf(),
        walk.stack.len() > 0,
    ensures
        walk.popped().wf(),
        !walk.seen.contains(walk.stack.last()),
{
    let next = walk.popped();
    let top = walk.stack.len() - 1;
    assert forall|a: int, b: int|
        0 <= a < next.seen.len() && 0 <= b < next.seen.len() && a != b implies next.seen[a]
        != next.seen[b] by {
        if a == walk.seen.len() {
            assert(walk.stack[top] != walk.seen[b]);
        } else if b == walk.seen.len() {
            assert(walk.stack[top] != walk.seen[a]);
        }
    }
    assert forall|a: int, b: int|
        0 <= a < next.stack.len() && 0 <= b < next.seen.len() implies next.stack[a]
        != next.seen[b] by {
        assert(next.stack[a] == walk.stack[a]);
        if b == walk.seen.len() {
            assert(walk.stack[a] != walk.stack[top]);
        } else {
            assert(walk.stack[a] != walk.seen[b]);
        }
    }
    assert forall|j: int| 0 <= j < walk.seen.len() implies walk.seen[j] != walk.stack[top] by {
        assert(walk.stack[top] != walk.seen[j]);
    }
}

/// Moving the top of the stack to the servers asked keeps the walk within
/// `universe`.
pub proof fn lemma_popped_within(walk: WalkView, universe: Set<NsView>)
    requires
        walk.within(universe),
        walk.stack.len() > 0,
    ensures
        walk.popped().within(universe),
{
    let next = walk.popped();
    assert forall|i: int| 0 <= i < next.stack.len() implies universe.contains(next.stack[i]) by {
        assert(next.stack[i] == walk.stack[i]);
    }
    assert forall|j: int| 0 <= j < next.seen.len() implies universe.contains(next.seen[j]) by {
        if j < walk.seen.len() {
            assert(next.seen[j] == walk.seen[j]);
        } else {
            assert(next.seen[j] == walk.stack[walk.stack.len() - 1]);
        }
    }
}

} // verus!
