//! Event listeners of the document and its elements.
use vstd::prelude::*;
use vstd::string::*;

use crate::js::arg;
use crate::js::arg::Arg;
use crate::strmap::StringMap;

verus! {

/// A listener: a handle to the script's value, the same for the same value,
/// and whether it can be called.
#[derive(Debug, Clone, Copy, PartialEq, Eq, Structural)]
pub struct Listener {
    pub handle: u64,
    pub callable: bool,
}

/// What a script hands to `dispatchEvent`.
pub enum Event {
    /// An object, with its member `type` as far as that is a string.
    Object { event_type: Option<String> },
    /// A string, which is the type of the event.
    Text(String),
    /// Anything else.
    Other,
}

/// The type of an event; nothing of what is neither an object nor a string.
pub open spec fn event_type(e: Event) -> Option<Seq<char>> {
    match e {
        Event::Object { event_type } => Some(
            match event_type {
                Some(t) => t@,
                None => Seq::empty(),
            },
        ),
        Event::Text(t) => Some(t@),
        Event::Other => None,
    }
}

/// The listeners for each type of event, in the order in which they were added.
pub struct Listeners {
    lists: StringMap<Vec<Listener>>,
}

impl View for Listeners {
    type V = Map<Seq<char>, Seq<Listener>>;

    closed spec fn view(&self) -> Map<Seq<char>, Seq<Listener>> {
        self.lists@.map_values(|v: Vec<Listener>| v@)
    }
}

/// The listeners for a type of event.
pub open spec fn listeners_for(m: Map<Seq<char>, Seq<Listener>>, t: Seq<char>) -> Seq<Listener> {
    if m.contains_key(t) {
        m[t]
    } else {
        Seq::empty()
    }
}

/// The handles of those listeners that can be called, in order.
pub open spec fn callables(v: Seq<Listener>) -> Seq<u64>
    decreases v.len(),
{
    if v.len() == 0 {
        Seq::empty()
    } else if v.last().callable {
        callables(v.drop_last()).push(v.last().handle)
    } else {
        callables(v.drop_last())
    }
}

/// The listeners after a callback was added for a type of event.
pub open spec fn added(
    m: Map<Seq<char>, Seq<Listener>>,
    t: Seq<char>,
    handle: u64,
    callable: bool,
) -> Map<Seq<char>, Seq<Listener>> {
    m.insert(t, listeners_for(m, t).push(Listener { handle, callable }))
}

/// The listeners but for those of one handle, in order.
pub open spec fn others(v: Seq<Listener>, handle: u64) -> Seq<Listener>
    decreases v.len(),
{
    if v.len() == 0 {
        Seq::empty()
    } else if v.last().handle == handle {
        others(v.drop_last(), handle)
    } else {
        others(v.drop_last(), handle).push(v.last())
    }
}

/// The listeners after a callback was removed for a type of event.
pub open spec fn removed(
    m: Map<Seq<char>, Seq<Listener>>,
    t: Seq<char>,
    handle: u64,
) -> Map<Seq<char>, Seq<Listener>> {
    if m.contains_key(t) {
        m.insert(t, others(m[t], handle))
    } else {
        m
    }
}

impl Listeners {
    /// No type of event occurs twice.
    pub closed spec fn wf(&self) -> bool {
        self.lists.wf()
    }

    /// No listeners at all.
    pub fn new() -> (r: Listeners)
        ensures
            r.wf(),
            r@ == Map::<Seq<char>, Seq<Listener>>::empty(),
    {
        let r: Listeners = Listeners { lists: StringMap::new() };
        assert(r@ =~= Map::<Seq<char>, Seq<Listener>>::empty());
        r
    }

    /// `addEventListener(type, callback)`: the callback is called last of
    /// those for its type. One that is undefined or null is not added.
    pub fn add(&mut self, args: &[Arg], handle: u64)
        requires
            old(self).wf(),
        ensures
            final(self).wf(),
            final(self)@ == if arg::present_at(args@, 1) {
                added(old(self)@, arg::shown_at(args@, 0), handle, arg::callable_at(args@, 1))
            } else {
                old(self)@
            },
    {
        if !arg::present(args, 1) {
            return ;
        }
        let t: String = arg::shown(args, 0);
        let ghost key = t@;
        let mut list: Vec<Listener> = Vec::new();
        match self.lists.get(t.as_str()) {
            Some(l) => {
                let mut i: usize = 0;
                while i < l.len()
                    invariant
                        i <= l.len(),
                        list@ == l@.take(i as int),
                    decreases l.len() - i,
                {
                    list.push(l[i]);
                    i = i + 1;
                }
                assert(l@.take(i as int) =~= l@);
            },
            None => {},
        }
        assert(list@ == listeners_for(old(self)@, key));
        list.push(Listener { handle, callable: arg::callable(args, 1) });
        let ghost now = list@;
        self.lists.insert(t, list);
        assert(self@ =~= old(self)@.insert(key, now));
    }

    /// `removeEventListener(type, callback)`: the callback of the handle is
    /// called for the type no longer. The others stay, in their order.
    pub fn remove(&mut self, args: &[Arg], handle: u64)
        requires
            old(self).wf(),
        ensures
            final(self).wf(),
            final(self)@ == removed(old(self)@, arg::shown_at(args@, 0), handle),
    {
        let t: String = arg::shown(args, 0);
        let ghost key = t@;
        let mut list: Vec<Listener> = Vec::new();
        match self.lists.get(t.as_str()) {
            Some(l) => {
                let mut i: usize = 0;
                assert(l@.take(0) =~= Seq::empty());
                while i < l.len()
                    invariant
                        i <= l.len(),
                        list@ == others(l@.take(i as int), handle),
                    decreases l.len() - i,
                {
                    assert(l@.take(i + 1).drop_last() =~= l@.take(i as int));
                    if l[i].handle != handle {
                        list.push(l[i]);
                    }
                    i = i + 1;
                }
                assert(l@.take(i as int) =~= l@);
            },
            None => {
                return ;
            },
        }
        let ghost now = list@;
        self.lists.insert(t, list);
        assert(self@ =~= old(self)@.insert(key, now));
    }

    /// `dispatchEvent(event)`: the callbacks to call, one after another.
    pub fn dispatch(&self, event: &Event) -> (r: Vec<u64>)
        requires
            self.wf(),
        ensures
            r@ == match event_type(*event) {
                Some(t) => callables(listeners_for(self@, t)),
                None => Seq::empty(),
            },
    {
        let mut r: Vec<u64> = Vec::new();
        let t: String = match event {
            Event::Object { event_type } => match event_type {
                Some(t) => t.clone(),
                None => String::new(),
            },
            Event::Text(t) => t.clone(),
            Event::Other => {
                return r;
            },
        };
        match self.lists.get(t.as_str()) {
            Some(l) => {
                let mut i: usize = 0;
                assert(l@.take(0) =~= Seq::empty());
                while i < l.len()
                    invariant
                        i <= l.len(),
                        r@ == callables(l@.take(i as int)),
                    decreases l.len() - i,
                {
                    assert(l@.take(i + 1).drop_last() =~= l@.take(i as int));
                    if l[i].callable {
                        r.push(l[i].handle);
                    }
                    i = i + 1;
                }
                assert(l@.take(i as int) =~= l@);
            },
            None => {},
        }
        r
    }
}

/// A callback that was added for a type is called when such an event is
/// dispatched, after those added before.
pub proof fn lemma_added_is_called(
    m: Map<Seq<char>, Seq<Listener>>,
    t: Seq<char>,
    handle: u64,
)
    ensures
        ({
            let list = listeners_for(m, t).push(Listener { handle, callable: true });
            callables(listeners_for(m.insert(t, list), t)) == callables(listeners_for(m, t)).push(
                handle,
            )
        }),
{
    let before = listeners_for(m, t);
    let list = before.push(Listener { handle, callable: true });
    assert(list.drop_last() =~= before);
}

/// A callback that was removed for a type is not called for it. Those that are
/// called are the others that were called before, in their order, and for
/// other types nothing changes.
pub proof fn lemma_removed_is_not_called(
    m: Map<Seq<char>, Seq<Listener>>,
    t: Seq<char>,
    handle: u64,
)
    ensures
        callables(listeners_for(removed(m, t, handle), t)) == callables(
            listeners_for(m, t),
        ).filter(|h: u64| h != handle),
        !callables(listeners_for(removed(m, t, handle), t)).contains(handle),
        forall|u: Seq<char>|
            u != t ==> #[trigger] listeners_for(removed(m, t, handle), u) == listeners_for(m, u),
{
    let keep = |h: u64| h != handle;
    lemma_others_called(listeners_for(m, t), handle);
    let before = callables(listeners_for(m, t));
    assert forall|i: int| 0 <= i < before.filter(keep).len() implies before.filter(keep)[i]
        != handle by {
        before.lemma_filter_pred(keep, i);
    }
}

proof fn lemma_others_called(v: Seq<Listener>, handle: u64)
    ensures
        callables(others(v, handle)) == callables(v).filter(|h: u64| h != handle),
    decreases v.len(),
{
    reveal(Seq::filter);
    if v.len() > 0 {
        let front = v.drop_last();
        lemma_others_called(front, handle);
        let last = v.last();
        if last.callable {
            assert(callables(v).drop_last() =~= callables(front));
        }
        if last.handle != handle {
            assert(others(v, handle).drop_last() =~= others(front, handle));
        }
    }
}

/// An event is the same whether it is handed over as an object with a type or as
/// the type alone; an object without a type has the empty one, and anything else
/// is no event.
pub proof fn lemma_event_type(t: String)
    ensures
        event_type(Event::Text(t)) == Some(t@),
        event_type(Event::Object { event_type: Some(t) }) == event_type(Event::Text(t)),
        (event_type(Event::Object { event_type: None }) matches Some(u) && u.len() == 0),
        event_type(Event::Other) is None,
{
}

/// Only what can be called is called, and what can be called is, in the order
/// in which it was added.
pub proof fn lemma_called(a: Seq<Listener>, l: Listener, b: Seq<Listener>)
    ensures
        callables(a + b) == callables(a) + callables(b),
        callables(seq![l]) == if l.callable {
            seq![l.handle]
        } else {
            Seq::empty()
        },
    decreases b.len(),
{
    assert(seq![l].drop_last() =~= Seq::empty());
    assert(callables(seq![l].drop_last()) =~= Seq::empty());
    assert(Seq::<u64>::empty().push(l.handle) =~= seq![l.handle]);
    if b.len() == 0 {
        assert(a + b =~= a);
        assert(callables(a) + callables(b) =~= callables(a));
    } else {
        lemma_called(a, l, b.drop_last());
        assert((a + b).drop_last() =~= a + b.drop_last());
        assert(callables(a + b) =~= callables(a) + callables(b));
    }
}

/// Adding a callback adds it behind those of its type, whether it can be called
/// or not, and changes nothing for other types.
pub proof fn lemma_added(
    m: Map<Seq<char>, Seq<Listener>>,
    t: Seq<char>,
    handle: u64,
    callable: bool,
    other: Seq<char>,
)
    requires
        other != t,
    ensures
        ({
            let was = listeners_for(m, t);
            let now = listeners_for(added(m, t, handle, callable), t);
            &&& now.len() == was.len() + 1
            &&& was.is_prefix_of(now)
            &&& now.last().handle == handle
            &&& now.last().callable == callable
            &&& callables(now) == if callable {
                callables(was).push(handle)
            } else {
                callables(was)
            }
            &&& listeners_for(added(m, t, handle, callable), other) == listeners_for(m, other)
        }),
{
    let was = listeners_for(m, t);
    let now = listeners_for(added(m, t, handle, callable), t);
    assert(now.drop_last() =~= was);
}

} // verus!
