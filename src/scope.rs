//! Environments: frames of bindings, each linked to the frame it was created
//! in. Frames live in one store and are named by their index there, so a
//! closure shares its defining frame by holding that index, and a binding
//! added to a frame is seen by everything that shares it.
use crate::printer::print_symbol;
use crate::string_interner::{symbol_id, StringInterner};
use crate::value::Value;
use vstd::prelude::*;

verus! {

broadcast use vstd::std_specs::vec::group_vec_axioms;

/// One frame: the bindings of a scope and the frame it extends.
pub struct ScopeData {
    pub parent: Option<usize>,
    pub bindings: Vec<(u64, Value)>,
}

/// The store of all frames.
pub struct Scope {
    pub frames: Vec<ScopeData>,
}

/// The value bound to `id` in one frame's bindings: the last entry for it.
pub open spec fn find_binding(b: Seq<(u64, Value)>, id: u64) -> Option<Value>
    decreases b.len(),
{
    if b.len() == 0 {
        None
    } else if b.last().0 == id {
        Some(b.last().1)
    } else {
        find_binding(b.drop_last(), id)
    }
}

/// The value bound to `id` as seen from frame `idx`: the innermost binding
/// along the chain of parents.
pub open spec fn lookup_spec(frames: Seq<ScopeData>, idx: int, id: u64) -> Option<Value>
    decreases idx,
{
    if idx < 0 || idx >= frames.len() {
        None
    } else {
        match find_binding(frames[idx].bindings@, id) {
            Some(v) => Some(v),
            None => match frames[idx].parent {
                Some(p) => if p < idx {
                    lookup_spec(frames, p as int, id)
                } else {
                    None
                },
                None => None,
            },
        }
    }
}

pub open spec fn keys_of(b: Seq<(u64, Value)>) -> Seq<u64> {
    b.map_values(|e: (u64, Value)| e.0)
}

/// The ids bound along the chain from frame `idx` outwards, innermost frame
/// first.
pub open spec fn chain_ids(frames: Seq<ScopeData>, idx: int) -> Seq<u64>
    decreases idx,
{
    if idx < 0 || idx >= frames.len() {
        Seq::empty()
    } else {
        keys_of(frames[idx].bindings@) + match frames[idx].parent {
            Some(p) => if p < idx {
                chain_ids(frames, p as int)
            } else {
                Seq::empty()
            },
            None => Seq::empty(),
        }
    }
}

/// Every frame's parent was created before it.
pub open spec fn frames_wf(frames: Seq<ScopeData>) -> bool {
    forall|i: int| 0 <= i < frames.len() ==> (#[trigger] frames[i].parent matches Some(p) ==> p < i)
}

/// `new` holds every frame of `old` with the same parent; only frames
/// beyond the old ones and bindings may differ.
pub open spec fn parents_kept(old: Seq<ScopeData>, new: Seq<ScopeData>) -> bool {
    &&& old.len() <= new.len()
    &&& forall|i: int| 0 <= i < old.len() ==> (#[trigger] new[i]).parent == old[i].parent
}

impl Scope {
    pub open spec fn wf(&self) -> bool {
        frames_wf(self.frames@) && self.frames@.len() > 0
    }

    /// The value bound to `id` as seen from `frame`.
    pub open spec fn lookup_view(&self, frame: int, id: u64) -> Option<Value> {
        lookup_spec(self.frames@, frame, id)
    }

    /// A store with one empty global frame, index 0.
    pub fn new() -> (r: Scope)
        ensures
            r.wf(),
            r.frames@.len() == 1,
            r.frames@[0].parent is None,
            r.frames@[0].bindings@.len() == 0,
    {
        let mut frames: Vec<ScopeData> = Vec::new();
        frames.push(ScopeData::new(None));
        Scope { frames }
    }

    /// Drops every frame from index `len` on.
    pub fn release(&mut self, len: usize)
        requires
            old(self).wf(),
            0 < len <= old(self).frames@.len(),
        ensures
            final(self).wf(),
            final(self).frames@ == old(self).frames@.subrange(0, len as int),
    {
        self.frames.truncate(len);
        proof {
            assert forall|i: int| 0 <= i < self.frames@.len() implies (#[trigger] self.frames@[i].parent matches Some(p) ==> p < i) by {
                assert(self.frames@[i] == old(self).frames@[i]);
            }
        }
    }

    /// A fresh, empty frame whose parent is `parent`.
    pub fn new_child(&mut self, parent: usize) -> (r: usize)
        requires
            old(self).wf(),
            parent < old(self).frames@.len(),
        ensures
            final(self).wf(),
            r == old(self).frames@.len(),
            final(self).frames@.len() == old(self).frames@.len() + 1,
            forall|i: int| 0 <= i < old(self).frames@.len() ==> #[trigger] final(self).frames@[i] == old(self).frames@[i],
            final(self).frames@[r as int].parent == Some(parent),
            final(self).frames@[r as int].bindings@.len() == 0,
    {
        let r = self.frames.len();
        self.frames.push(ScopeData::new(Some(parent)));
        proof {
            assert forall|i: int| 0 <= i < self.frames@.len() implies (#[trigger] self.frames@[i].parent matches Some(p) ==> p < i) by {
                if i < r {
                    assert(self.frames@[i] == old(self).frames@[i]);
                }
            }
        }
        r
    }

    /// The value bound to `id` as seen from `frame`.
    pub fn lookup_symbol(&self, frame: usize, id: u64) -> (r: Option<Value>)
        ensures
            r == self.lookup_view(frame as int, id),
    {
        if frame >= self.frames.len() {
            return None;
        }
        let mut cur = frame;
        loop
            invariant
                cur < self.frames@.len(),
                lookup_spec(self.frames@, frame as int, id) == lookup_spec(self.frames@, cur as int, id),
            decreases cur,
        {
            match self.frames[cur].lookup_symbol(id) {
                Some(v) => {
                    return Some(v);
                },
                None => {},
            }
            match self.frames[cur].parent {
                Some(p) => {
                    if p < cur {
                        cur = p;
                    } else {
                        return None;
                    }
                },
                None => {
                    return None;
                },
            }
        }
    }

    /// The value bound to the symbol with text `s` as seen from `frame`.
    pub fn lookup_symbol_with_string(&self, frame: usize, s: &str) -> (r: Option<Value>)
        ensures
            r == self.lookup_view(frame as int, crate::string_interner::symbol_id_of(s@)),
    {
        let id = symbol_id(s);
        self.lookup_symbol(frame, id)
    }

    /// Binds `id` to `value` in `frame` itself, replacing an earlier binding
    /// of `id` there. No other frame changes.
    pub fn add_symbol(&mut self, frame: usize, id: u64, value: Value)
        requires
            old(self).wf(),
            frame < old(self).frames@.len(),
        ensures
            final(self).wf(),
            final(self).frames@.len() == old(self).frames@.len(),
            forall|i: int| 0 <= i < old(self).frames@.len() && i != frame ==> #[trigger] final(self).frames@[i] == old(self).frames@[i],
            final(self).frames@[frame as int].parent == old(self).frames@[frame as int].parent,
            find_binding(final(self).frames@[frame as int].bindings@, id) == Some(value),
            forall|other: u64| other != id ==> #[trigger] find_binding(final(self).frames@[frame as int].bindings@, other)
                == find_binding(old(self).frames@[frame as int].bindings@, other),
    {
        let mut data = ScopeData::new(None);
        std::mem::swap(&mut data, &mut self.frames[frame]);
        data.add_symbol(id, value);
        std::mem::swap(&mut data, &mut self.frames[frame]);
        proof {
            assert forall|i: int| 0 <= i < self.frames@.len() implies (#[trigger] self.frames@[i].parent matches Some(p) ==> p < i) by {
                if i != frame {
                    assert(self.frames@[i] == old(self).frames@[i]);
                }
            }
        }
    }

    /// The ids bound along the chain from `frame` outwards, innermost first.
    pub fn symbol_ids(&self, frame: usize) -> (r: Vec<u64>)
        ensures
            r@ == chain_ids(self.frames@, frame as int),
    {
        let mut out: Vec<u64> = Vec::new();
        if frame >= self.frames.len() {
            return out;
        }
        let mut cur = frame;
        loop
            invariant
                cur < self.frames@.len(),
                chain_ids(self.frames@, frame as int) == out@ + chain_ids(self.frames@, cur as int),
            decreases cur,
        {
            self.frames[cur].append_ids(&mut out);
            match self.frames[cur].parent {
                Some(p) => {
                    if p < cur {
                        assert(chain_ids(self.frames@, frame as int) == out@ + chain_ids(self.frames@, p as int));
                        cur = p;
                    } else {
                        assert(out@ =~= out@ + Seq::<u64>::empty());
                        return out;
                    }
                },
                None => {
                    assert(out@ =~= out@ + Seq::<u64>::empty());
                    return out;
                },
            }
        }
    }

    /// The printed names of the symbols bound along the chain from `frame`,
    /// one for each binding, innermost frame first.
    pub fn symbol_strings(&self, frame: usize, interner: &StringInterner) -> (r: Vec<String>)
        ensures
            r@.len() == chain_ids(self.frames@, frame as int).len(),
            forall|i: int| 0 <= i < r@.len() ==> (#[trigger] r@[i])@ == print_symbol(
                chain_ids(self.frames@, frame as int)[i],
                interner.names(),
            ),
    {
        let ids = self.symbol_ids(frame);
        let mut out: Vec<String> = Vec::new();
        let mut i: usize = 0;
        while i < ids.len()
            invariant
                i <= ids@.len(),
                ids@ == chain_ids(self.frames@, frame as int),
                out@.len() == i,
                forall|j: int| 0 <= j < i ==> (#[trigger] out@[j])@ == print_symbol(ids@[j], interner.names()),
            decreases ids.len() - i,
        {
            let s = Value::new_symbol(ids[i]).to_string(interner);
            out.push(s);
            i = i + 1;
        }
        out
    }
}

impl ScopeData {
    pub fn new(parent: Option<usize>) -> (r: ScopeData)
        ensures
            r.parent == parent,
            r.bindings@.len() == 0,
    {
        ScopeData { parent, bindings: Vec::new() }
    }

    /// The value bound to `id` in this frame alone.
    pub fn lookup_symbol(&self, id: u64) -> (r: Option<Value>)
        ensures
            r == find_binding(self.bindings@, id),
    {
        let mut i = self.bindings.len();
        assert(self.bindings@.subrange(0, i as int) =~= self.bindings@);
        while i > 0
            invariant
                i <= self.bindings@.len(),
                find_binding(self.bindings@, id) == find_binding(self.bindings@.subrange(0, i as int), id),
            decreases i,
        {
            let ghost t = self.bindings@.subrange(0, i as int);
            assert(t.drop_last() =~= self.bindings@.subrange(0, i as int - 1));
            if self.bindings[i - 1].0 == id {
                return Some(self.bindings[i - 1].1.clone());
            }
            i = i - 1;
        }
        None
    }

    fn add_symbol(&mut self, id: u64, value: Value)
        ensures
            final(self).parent == old(self).parent,
            find_binding(final(self).bindings@, id) == Some(value),
            forall|other: u64| other != id ==> #[trigger] find_binding(final(self).bindings@, other)
                == find_binding(old(self).bindings@, other),
    {
        let mut i = self.bindings.len();
        while i > 0
            invariant
                i <= self.bindings@.len(),
                self.bindings@ == old(self).bindings@,
                self.parent == old(self).parent,
                forall|j: int| i <= j < self.bindings@.len() ==> (#[trigger] self.bindings@[j]).0 != id,
            decreases i,
        {
            if self.bindings[i - 1].0 == id {
                let ghost b0 = self.bindings@;
                self.bindings.set(i - 1, (id, value));
                proof {
                    lemma_find_after_set(b0, (i - 1) as int, id, value);
                }
                return;
            }
            i = i - 1;
        }
        let ghost b0 = self.bindings@;
        self.bindings.push((id, value));
        proof {
            assert(self.bindings@.drop_last() =~= b0);
        }
    }

    /// Appends the ids bound in this frame, in order.
    fn append_ids(&self, out: &mut Vec<u64>)
        ensures
            final(out)@ == old(out)@ + keys_of(self.bindings@),
    {
        let mut i: usize = 0;
        while i < self.bindings.len()
            invariant
                i <= self.bindings@.len(),
                out@ == old(out)@ + keys_of(self.bindings@).subrange(0, i as int),
            decreases self.bindings.len() - i,
        {
            out.push(self.bindings[i].0);
            assert(out@ =~= old(out)@ + keys_of(self.bindings@).subrange(0, i as int + 1));
            i = i + 1;
        }
        assert(keys_of(self.bindings@).subrange(0, i as int) =~= keys_of(self.bindings@));
    }
}

/// Replacing the last entry for `id` changes what `id` finds and nothing
/// else.
proof fn lemma_find_after_set(b: Seq<(u64, Value)>, k: int, id: u64, value: Value)
    requires
        0 <= k < b.len(),
        b[k].0 == id,
        forall|j: int| k < j < b.len() ==> (#[trigger] b[j]).0 != id,
    ensures
        find_binding(b.update(k, (id, value)), id) == Some(value),
        forall|other: u64| other != id ==> #[trigger] find_binding(b.update(k, (id, value)), other) == find_binding(b, other),
    decreases b.len(),
{
    let u = b.update(k, (id, value));
    if k == b.len() - 1 {
        assert(u.drop_last() =~= b.drop_last());
        assert forall|other: u64| other != id implies #[trigger] find_binding(u, other) == find_binding(b, other) by {
            assert(u.last().0 == id);
        }
    } else {
        assert(u.drop_last() =~= b.drop_last().update(k, (id, value)));
        lemma_find_after_set(b.drop_last(), k, id, value);
        assert(u.last() == b.last());
        assert forall|other: u64| other != id implies #[trigger] find_binding(u, other) == find_binding(b, other) by {
            assert(find_binding(b.drop_last().update(k, (id, value)), other) == find_binding(b.drop_last(), other));
        }
    }
}

} // verus!
