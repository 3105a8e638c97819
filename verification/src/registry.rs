//! The callback registry: a store of callbacks keyed by widget identity,
//! viewed in contracts as a map from key to callback.
//!
//! Dispatching follows a remove–call–conditionally-reinsert protocol: the
//! entry is taken out, the callback runs, and the callback is put back
//! unless the key carries the one-shot marker or the invocation installed a
//! replacement under the same key. That way an ordinary callback stays
//! armed for the next trigger, while a callback that rebinds itself is not
//! overwritten by the reinsertion.

use vstd::prelude::*;

use crate::text::contains_sub;
use crate::text::contains_str;

verus! {

/// The key-to-callback map denoted by a sequence of entries; a later entry
/// with the same key would win, though the store keeps keys unique.
pub open spec fn entries_map<T>(s: Seq<(String, T)>) -> Map<Seq<char>, T>
    decreases s.len(),
{
    if s.len() == 0 {
        Map::empty()
    } else {
        entries_map(s.drop_last()).insert(s.last().0@, s.last().1)
    }
}

/// No two entries share a key.
pub open spec fn unique_keys<T>(s: Seq<(String, T)>) -> bool {
    forall|i: int, j: int| 0 <= i < j < s.len() ==> (#[trigger] s[i].0)@ != (#[trigger] s[j].0)@
}

proof fn lemma_entries_map_contains<T>(s: Seq<(String, T)>, k: Seq<char>)
    ensures
        entries_map(s).contains_key(k) <==> exists|i: int|
            0 <= i < s.len() && (#[trigger] s[i].0)@ == k,
    decreases s.len(),
{
    if s.len() > 0 {
        lemma_entries_map_contains(s.drop_last(), k);
        if entries_map(s).contains_key(k) {
            if s.last().0@ == k {
                assert(s[s.len() - 1].0@ == k);
            } else {
                let i = choose|i: int| 0 <= i < s.drop_last().len() && (#[trigger] s.drop_last()[
                    i].0)@ == k;
                assert(s[i].0@ == k);
            }
        }
        if exists|i: int| 0 <= i < s.len() && (#[trigger] s[i].0)@ == k {
            let i = choose|i: int| 0 <= i < s.len() && (#[trigger] s[i].0)@ == k;
            if i < s.len() - 1 {
                assert(s.drop_last()[i].0@ == k);
            }
        }
    }
}

proof fn lemma_entries_map_index<T>(s: Seq<(String, T)>, i: int)
    requires
        unique_keys(s),
        0 <= i < s.len(),
    ensures
        entries_map(s).contains_key(s[i].0@),
        entries_map(s)[s[i].0@] == s[i].1,
    decreases s.len(),
{
    if i < s.len() - 1 {
        assert(unique_keys(s.drop_last()));
        assert(s.drop_last()[i] == s[i]);
        lemma_entries_map_index(s.drop_last(), i);
        assert(s[i].0@ != s.last().0@);
    }
}

proof fn lemma_entries_map_remove<T>(s: Seq<(String, T)>, i: int)
    requires
        unique_keys(s),
        0 <= i < s.len(),
    ensures
        entries_map(s.remove(i)) == entries_map(s).remove(s[i].0@),
    decreases s.len(),
{
    let k = s[i].0@;
    if i == s.len() - 1 {
        assert(s.remove(i) =~= s.drop_last());
        lemma_entries_map_contains(s.drop_last(), k);
        assert(!entries_map(s.drop_last()).contains_key(k)) by {
            if exists|j: int| 0 <= j < s.drop_last().len() && (#[trigger] s.drop_last()[j].0)@
                == k {
                let j = choose|j: int|
                    0 <= j < s.drop_last().len() && (#[trigger] s.drop_last()[j].0)@ == k;
                assert(s[j].0@ == s[i].0@);
            }
        }
        assert(entries_map(s).remove(k) =~= entries_map(s.drop_last()));
    } else {
        assert(unique_keys(s.drop_last()));
        assert(s.remove(i).drop_last() =~= s.drop_last().remove(i));
        assert(s.remove(i).last() == s.last());
        assert(s.drop_last()[i] == s[i]);
        lemma_entries_map_remove(s.drop_last(), i);
        assert(entries_map(s.remove(i)) == entries_map(s.drop_last()).remove(k).insert(
            s.last().0@,
            s.last().1,
        ));
        assert(s.last().0@ != k);
        assert(entries_map(s).remove(k) =~= entries_map(s.drop_last()).remove(k).insert(
            s.last().0@,
            s.last().1,
        ));
    }
}

/// A store of callbacks keyed by widget identity (or widget identity plus
/// event pattern). Its view is the map from key to callback.
pub struct CallbackStore<T> {
    entries: Vec<(String, T)>,
}

impl<T> View for CallbackStore<T> {
    type V = Map<Seq<char>, T>;

    closed spec fn view(&self) -> Map<Seq<char>, T> {
        entries_map(self.entries@)
    }
}

impl<T> CallbackStore<T> {
    /// Keys are stored at most once.
    pub closed spec fn wf(&self) -> bool {
        unique_keys(self.entries@)
    }

    pub fn new() -> (r: CallbackStore<T>)
        ensures
            r.wf(),
            r@ == Map::<Seq<char>, T>::empty(),
    {
        CallbackStore { entries: Vec::new() }
    }

    fn find_index(&self, key: &str) -> (r: Option<usize>)
        ensures
            match r {
                Some(i) => i < self.entries@.len() && (self.entries@[i as int].0)@ == key@,
                None => !self@.contains_key(key@),
            },
    {
        let n = self.entries.len();
        let mut i: usize = 0;
        loop
            invariant
                0 <= i <= n,
                n == self.entries@.len(),
                forall|j: int| 0 <= j < i ==> (#[trigger] self.entries@[j].0)@ != key@,
            ensures
                i == n,
                forall|j: int| 0 <= j < i ==> (#[trigger] self.entries@[j].0)@ != key@,
            decreases n - i,
        {
            if i == n {
                break ;
            }
            if crate::text::str_eq(self.entries[i].0.as_str(), key) {
                return Some(i);
            }
            i = i + 1;
        }
        proof {
            lemma_entries_map_contains(self.entries@, key@);
        }
        None
    }

    /// Whether a callback is registered under `key`.
    pub fn contains(&self, key: &str) -> (r: bool)
        ensures
            r == self@.contains_key(key@),
    {
        match self.find_index(key) {
            Some(i) => {
                proof {
                    lemma_entries_map_contains(self.entries@, key@);
                }
                true
            },
            None => false,
        }
    }

    /// Registers `val` under `key`, replacing any earlier entry.
    pub fn insert(&mut self, key: &str, val: T)
        requires
            old(self).wf(),
        ensures
            final(self).wf(),
            final(self)@ == old(self)@.insert(key@, val),
    {
        let _ = self.take(key);
        let ghost prev = self.entries@;
        self.entries.push((String::from_str(key), val));
        proof {
            assert(self.entries@.drop_last() =~= prev);
            assert(self@ == entries_map(prev).insert(key@, val));
            lemma_entries_map_contains(prev, key@);
            assert forall|i: int, j: int| 0 <= i < j < self.entries@.len() implies (
            #[trigger] self.entries@[i].0)@ != (#[trigger] self.entries@[j].0)@ by {
                if j == self.entries@.len() - 1 {
                    assert(prev[i] == self.entries@[i]);
                } else {
                    assert(prev[i] == self.entries@[i]);
                    assert(prev[j] == self.entries@[j]);
                }
            }
            assert(old(self)@.remove(key@).insert(key@, val) =~= old(self)@.insert(key@, val));
        }
    }

    /// Takes the callback registered under `key` out of the store, if any:
    /// the first half of the dispatch protocol.
    pub fn take(&mut self, key: &str) -> (r: Option<T>)
        requires
            old(self).wf(),
        ensures
            final(self).wf(),
            old(self)@.contains_key(key@) ==> {
                &&& r matches Some(v)
                &&& v == old(self)@[key@]
                &&& final(self)@ == old(self)@.remove(key@)
            },
            !old(self)@.contains_key(key@) ==> r is None && *final(self) == *old(self),
    {
        match self.find_index(key) {
            Some(i) => {
                proof {
                    lemma_entries_map_index(self.entries@, i as int);
                    lemma_entries_map_remove(self.entries@, i as int);
                    assert forall|a: int, b: int|
                        0 <= a < b < self.entries@.remove(i as int).len() implies (
                    #[trigger] self.entries@.remove(i as int)[a].0)@ != (
                    #[trigger] self.entries@.remove(i as int)[b].0)@ by {
                        let s = self.entries@;
                        if a < i {
                            assert(s.remove(i as int)[a] == s[a]);
                        } else {
                            assert(s.remove(i as int)[a] == s[a + 1]);
                        }
                        if b < i {
                            assert(s.remove(i as int)[b] == s[b]);
                        } else {
                            assert(s.remove(i as int)[b] == s[b + 1]);
                        }
                    }
                }
                let pair = self.entries.remove(i);
                Some(pair.1)
            },
            None => None,
        }
    }

    /// The second half of the dispatch protocol: puts `val` back under
    /// `key` so the callback stays armed — unless the invocation installed
    /// a replacement under the same key, which is then left in place.
    pub fn rearm(&mut self, key: &str, val: T)
        requires
            old(self).wf(),
        ensures
            final(self).wf(),
            old(self)@.contains_key(key@) ==> *final(self) == *old(self),
            !old(self)@.contains_key(key@) ==> final(self)@ == old(self)@.insert(key@, val),
    {
        if !self.contains(key) {
            self.insert(key, val);
        }
    }
}

/// The marker that names a one-shot callback key: deferred `after` commands
/// fire once and are not re-armed.
pub open spec fn one_shot_marker() -> Seq<char> {
    seq!['a', 'f', 't', 'e', 'r']
}

/// A key holding the one-shot marker registers a callback that dispatch
/// must not re-arm.
pub open spec fn is_one_shot_key(key: Seq<char>) -> bool {
    contains_sub(key, one_shot_marker())
}

/// Decides `is_one_shot_key`.
pub fn one_shot_key(key: &str) -> (r: bool)
    ensures
        r == is_one_shot_key(key@),
{
    proof {
        reveal_strlit("after");
        assert("after"@ =~= one_shot_marker());
    }
    contains_str(key, "after")
}

/// Dispatches the no-argument callback registered under `wid`, if any:
/// takes it out, calls it, and re-arms it unless the key is one-shot or the
/// call installed a replacement. An unregistered key is a silent no-op.
pub fn eval_callback0<F: Fn()>(store: &mut CallbackStore<F>, wid: &str)
    requires
        old(store).wf(),
        old(store)@.contains_key(wid@) ==> call_requires(old(store)@[wid@], ()),
    ensures
        final(store).wf(),
        !old(store)@.contains_key(wid@) ==> *final(store) == *old(store),
        old(store)@.contains_key(wid@) && is_one_shot_key(wid@) ==> final(store)@ == old(
            store,
        )@.remove(wid@),
        old(store)@.contains_key(wid@) && !is_one_shot_key(wid@) ==> final(store)@ == old(
            store,
        )@,
        old(store)@.contains_key(wid@) ==> call_ensures(old(store)@[wid@], (), ()),
{
    if let Some(command) = store.take(wid) {
        command();
        if !one_shot_key(wid) && !store.contains(wid) {
            store.rearm(wid, command);
            proof {
                assert(old(store)@.remove(wid@).insert(wid@, old(store)@[wid@]) =~= old(
                    store,
                )@);
            }
        }
    }
}

/// Dispatches the one-argument callback registered under `wid`, if any,
/// handing it `value`: takes it out, calls it, and re-arms it unless the
/// call installed a replacement. An unregistered key is a silent no-op.
pub fn eval_callback1<A, F: Fn(A)>(store: &mut CallbackStore<F>, wid: &str, value: A)
    requires
        old(store).wf(),
        old(store)@.contains_key(wid@) ==> call_requires(old(store)@[wid@], (value,)),
    ensures
        final(store).wf(),
        !old(store)@.contains_key(wid@) ==> *final(store) == *old(store),
        old(store)@.contains_key(wid@) ==> final(store)@ == old(store)@,
        old(store)@.contains_key(wid@) ==> call_ensures(old(store)@[wid@], (value,), ()),
{
    if let Some(command) = store.take(wid) {
        command(value);
        if !store.contains(wid) {
            store.rearm(wid, command);
            proof {
                assert(old(store)@.remove(wid@).insert(wid@, old(store)@[wid@]) =~= old(
                    store,
                )@);
            }
        }
    }
}

/// The re-arming law of dispatch. Registering callback `c` under key `k`
/// and then dispatching for `k` invokes `c` once and leaves the registry as
/// it stood right after the registration — unless the invocation itself
/// registered a replacement `c2` under `k`, in which case `c2` is what
/// remains registered afterwards.
pub proof fn lemma_dispatch_rearms<T>(m: Map<Seq<char>, T>, k: Seq<char>, c: T, c2: T)
    ensures
        m.insert(k, c).remove(k).insert(k, c) == m.insert(k, c),
        m.insert(k, c).remove(k).insert(k, c2).contains_key(k),
        m.insert(k, c).remove(k).insert(k, c2)[k] == c2,
{
    assert(m.insert(k, c).remove(k).insert(k, c) =~= m.insert(k, c));
}

} // verus!
