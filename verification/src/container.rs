use vstd::prelude::*;
use std::sync::Arc;
use crate::injectable::Injectable;
use crate::InjectionError;

verus! {

/// Lifecycle of a binding: how often its factory may run.
#[derive(Clone, Copy, Debug, PartialEq, Eq, Structural)]
pub enum ResolutionType {
    /// The factory runs at most once per table value; its result is cached
    /// and reused by every later resolution against that table value.
    Singleton,
    /// The factory runs on every resolution; nothing is cached.
    Transient,
}

/// A type-erased, shareable handle to a concrete value.
///
/// The `tag` is the capability identity the value was produced for; the
/// engine checks it against the identity a caller asks for before handing
/// the value out.
pub struct Instance<T> {
    pub tag: u64,
    pub value: Arc<T>,
}

/// One entry of the binding table: lifecycle kind, the cached instance (only
/// ever populated for a `Singleton` entry), and the factory.
pub struct Resolution<F, T> {
    pub resolution_type: ResolutionType,
    pub stored_instance: Option<Instance<T>>,
    pub resolution_fn: Arc<F>,
}

/// The binding table and resolution engine: a map from capability identity
/// to `Resolution`, where a later binding of the same identity replaces the
/// earlier one.
pub struct Container<F, T> {
    bindings: Vec<(u64, Resolution<F, T>)>,
}

/// Relies on `alloc::sync::Arc::clone`: the clone is another handle to the
/// same allocation, so as a value it equals the original.
#[verifier::external_body]
fn arc_clone<X>(v: &Arc<X>) -> (r: Arc<X>)
    ensures
        r == *v,
{
    Arc::clone(v)
}

/// The factory adapter: erases a concrete value into the shared, tagged
/// `Instance` representation under the capability identity `tag`. This is
/// the single place where concrete-to-erased conversion happens; the reverse
/// conversion — checking and unwrapping — lives in the resolution engine
/// alone.
pub fn wrap_injectable<T>(tag: u64, value: T) -> (i: Instance<T>)
    ensures
        i.tag == tag,
        i.value == value,
{
    Instance { tag, value: Arc::new(value) }
}

/// The invariant of a table entry: only a `Singleton` binding ever holds a
/// cached instance; a `Transient` entry's cache is always empty.
pub open spec fn entry_wf<F, T>(r: Resolution<F, T>) -> bool {
    r.stored_instance is Some ==> r.resolution_type is Singleton
}

/// What survives of one binding across a factory invocation or a
/// resolution: its lifecycle and factory are kept, and a cache already set
/// is kept word for word — a cache slot is written at most once.
pub open spec fn binding_preserved<F, T>(pre: Resolution<F, T>, post: Resolution<F, T>) -> bool {
    &&& post.resolution_type == pre.resolution_type
    &&& post.resolution_fn == pre.resolution_fn
    &&& (pre.stored_instance is Some ==> post.stored_instance == pre.stored_instance)
}

/// The frame every factory invocation — and every mutable resolution —
/// preserves of the table: the set of bound identities is unchanged, and
/// each binding keeps its lifecycle, its factory and any cache already set;
/// the only mutation open to it is filling empty `Singleton` cache slots,
/// as recursive resolutions do.
pub open spec fn frame_preserved<F, T>(pre: Container<F, T>, post: Container<F, T>) -> bool {
    &&& post@.dom() == pre@.dom()
    &&& forall|k: u64| #[trigger] pre@.contains_key(k) ==> binding_preserved(pre@[k], post@[k])
}

/// The mathematical content of a sequence of bindings: the map taking each
/// bound identity to its latest entry.
pub open spec fn table_model<F, T>(entries: Seq<(u64, Resolution<F, T>)>) -> Map<
    u64,
    Resolution<F, T>,
>
    decreases entries.len(),
{
    if entries.len() == 0 {
        Map::empty()
    } else {
        table_model(entries.drop_last()).insert(entries.last().0, entries.last().1)
    }
}

/// What a downcast of `inst` to the capability `expected` yields: the held
/// value when the tags agree, `TypeNotBound` otherwise.
pub open spec fn downcast_model<T>(expected: u64, inst: Instance<T>) -> Result<
    Arc<T>,
    InjectionError,
> {
    if inst.tag == expected {
        Ok(inst.value)
    } else {
        Err(InjectionError::TypeNotBound)
    }
}

impl<F, T> View for Container<F, T> {
    type V = Map<u64, Resolution<F, T>>;

    closed spec fn view(&self) -> Map<u64, Resolution<F, T>> {
        table_model(self.bindings@)
    }
}

proof fn lemma_model_push<F, T>(entries: Seq<(u64, Resolution<F, T>)>, id: u64, r: Resolution<F, T>)
    ensures
        table_model(entries.push((id, r))) == table_model(entries).insert(id, r),
{
    let p = entries.push((id, r));
    assert(p.last() == (id, r));
    assert(p.drop_last() =~= entries);
}

proof fn lemma_model_contains<F, T>(entries: Seq<(u64, Resolution<F, T>)>, id: u64)
    ensures
        table_model(entries).contains_key(id) <==> exists|i: int|
            0 <= i < entries.len() && (#[trigger] entries[i]).0 == id,
    decreases entries.len(),
{
    if entries.len() == 0 {
    } else {
        lemma_model_contains(entries.drop_last(), id);
        if entries.last().0 == id {
            assert(entries[entries.len() - 1].0 == id);
        } else {
            if exists|i: int| 0 <= i < entries.len() && (#[trigger] entries[i]).0 == id {
                let i = choose|i: int| 0 <= i < entries.len() && (#[trigger] entries[i]).0 == id;
                assert(i < entries.len() - 1);
                assert(entries.drop_last()[i].0 == id);
            }
        }
    }
}

proof fn lemma_model_index<F, T>(entries: Seq<(u64, Resolution<F, T>)>, id: u64, i: int)
    requires
        0 <= i < entries.len(),
        entries[i].0 == id,
        forall|j: int| i < j < entries.len() ==> (#[trigger] entries[j]).0 != id,
    ensures
        table_model(entries).contains_key(id),
        table_model(entries)[id] == entries[i].1,
    decreases entries.len(),
{
    if i == entries.len() - 1 {
    } else {
        assert(entries.drop_last()[i] == entries[i]);
        lemma_model_index(entries.drop_last(), id, i);
        assert(entries.last().0 != id);
    }
}

proof fn lemma_model_entry_from_seq<F, T>(entries: Seq<(u64, Resolution<F, T>)>, k: u64)
    requires
        table_model(entries).contains_key(k),
    ensures
        exists|i: int|
            0 <= i < entries.len() && (#[trigger] entries[i]) == (k, table_model(entries)[k]),
    decreases entries.len(),
{
    if entries.len() == 0 {
        assert(false);
    } else if entries.last().0 == k {
        assert(entries[entries.len() - 1] == (k, table_model(entries)[k]));
    } else {
        lemma_model_entry_from_seq(entries.drop_last(), k);
        let i = choose|i: int|
            0 <= i < entries.drop_last().len() && (#[trigger] entries.drop_last()[i]) == (
            k,
            table_model(entries.drop_last())[k],
            );
        assert(entries[i] == (k, table_model(entries)[k]));
    }
}

proof fn lemma_frame_trans<F, T>(a: Container<F, T>, b: Container<F, T>, c: Container<F, T>)
    requires
        frame_preserved(a, b),
        frame_preserved(b, c),
    ensures
        frame_preserved(a, c),
{
    assert forall|k: u64| #[trigger] a@.contains_key(k) implies binding_preserved(
        a@[k],
        c@[k],
    ) by {
        assert(b@.contains_key(k));
    }
}

proof fn lemma_frame_grow_cache<F, T>(
    base: Container<F, T>,
    mid: Container<F, T>,
    post: Container<F, T>,
    id: u64,
    entry: Resolution<F, T>,
)
    requires
        frame_preserved(base, mid),
        base@.contains_key(id),
        base@[id].stored_instance is None,
        entry.resolution_type == base@[id].resolution_type,
        entry.resolution_fn == base@[id].resolution_fn,
        post@ == mid@.insert(id, entry),
    ensures
        frame_preserved(base, post),
{
    assert(post@.dom() =~= base@.dom());
    assert forall|k: u64| #[trigger] base@.contains_key(k) implies binding_preserved(
        base@[k],
        post@[k],
    ) by {
        if k != id {
            assert(post@[k] == mid@[k]);
        }
    }
}

proof fn lemma_model_concat<F, T>(
    a: Seq<(u64, Resolution<F, T>)>,
    b: Seq<(u64, Resolution<F, T>)>,
)
    ensures
        table_model(a + b) == table_model(a).union_prefer_right(table_model(b)),
    decreases b.len(),
{
    if b.len() == 0 {
        assert(a + b =~= a);
        assert(table_model(a).union_prefer_right(table_model(b)) =~= table_model(a));
    } else {
        lemma_model_concat(a, b.drop_last());
        assert((a + b).drop_last() =~= a + b.drop_last());
        assert((a + b).last() == b.last());
        assert(table_model(a).union_prefer_right(table_model(b.drop_last())).insert(
            b.last().0,
            b.last().1,
        ) =~= table_model(a).union_prefer_right(
            table_model(b.drop_last()).insert(b.last().0, b.last().1),
        ));
    }
}

impl<F, T> Container<F, T> {
    #[verifier::type_invariant]
    spec fn inv(self) -> bool {
        forall|i: int|
            0 <= i < self.bindings@.len() ==> entry_wf(#[trigger] self.bindings@[i].1)
    }

    /// An empty table: nothing is bound.
    pub fn new() -> (r: Self)
        ensures
            r@ == Map::<u64, Resolution<F, T>>::empty(),
            Self::table_wf(r),
    {
        let r = Container { bindings: Vec::new() };
        proof {
            assert(r.bindings@.len() == 0);
            use_type_invariant(&r);
            r.lemma_table_wf();
        }
        r
    }

    /// Appends one binding; the model is the old model with `id` now mapped
    /// to `entry`.
    fn push_entry(&mut self, id: u64, entry: Resolution<F, T>)
        requires
            entry_wf(entry),
        ensures
            final(self)@ == old(self)@.insert(id, entry),
    {
        proof {
            use_type_invariant(&*self);
        }
        let ghost entries0 = self.bindings@;
        let mut b: Vec<(u64, Resolution<F, T>)> = Vec::new();
        std::mem::swap(&mut b, &mut self.bindings);
        b.push((id, entry));
        std::mem::swap(&mut b, &mut self.bindings);
        proof {
            lemma_model_push(entries0, id, entry);
        }
    }

    /// Registers `factory` for the capability `id` with once-per-table
    /// (cached) lifecycle, replacing any earlier binding of `id`.
    pub fn bind_singleton(self, id: u64, factory: F) -> (r: Self)
        ensures
            r@ == self@.insert(
                id,
                (Resolution {
                    resolution_type: ResolutionType::Singleton,
                    stored_instance: None,
                    resolution_fn: Arc::new(factory),
                }),
            ),
            Self::table_wf(r),
    {
        let entry = Resolution {
            resolution_type: ResolutionType::Singleton,
            stored_instance: None,
            resolution_fn: Arc::new(factory),
        };
        let mut s = self;
        s.push_entry(id, entry);
        proof {
            use_type_invariant(&s);
            s.lemma_table_wf();
        }
        s
    }

    /// Registers `factory` for the capability `id` with fresh-per-resolution
    /// lifecycle, replacing any earlier binding of `id`.
    pub fn bind_transient(self, id: u64, factory: F) -> (r: Self)
        ensures
            r@ == self@.insert(
                id,
                (Resolution {
                    resolution_type: ResolutionType::Transient,
                    stored_instance: None,
                    resolution_fn: Arc::new(factory),
                }),
            ),
            Self::table_wf(r),
    {
        let entry = Resolution {
            resolution_type: ResolutionType::Transient,
            stored_instance: None,
            resolution_fn: Arc::new(factory),
        };
        let mut s = self;
        s.push_entry(id, entry);
        proof {
            use_type_invariant(&s);
            s.lemma_table_wf();
        }
        s
    }

    /// Merges `container` into `self`: every binding of `container` is laid
    /// over those of `self`, so `container` wins on a shared identity.
    pub fn bind_container_into(self, container: Self) -> (r: Self)
        ensures
            r@ == self@.union_prefer_right(container@),
            Self::table_wf(r),
    {
        let mut s = self;
        let mut other = container;
        proof {
            use_type_invariant(&s);
            use_type_invariant(&other);
        }
        let ghost entries0 = s.bindings@;
        let ghost entries1 = other.bindings@;
        let mut b: Vec<(u64, Resolution<F, T>)> = Vec::new();
        std::mem::swap(&mut b, &mut s.bindings);
        let mut ob: Vec<(u64, Resolution<F, T>)> = Vec::new();
        std::mem::swap(&mut ob, &mut other.bindings);
        b.append(&mut ob);
        std::mem::swap(&mut b, &mut s.bindings);
        proof {
            lemma_model_concat(entries0, entries1);
            use_type_invariant(&s);
            s.lemma_table_wf();
        }
        s
    }

    /// Finds the index of the latest binding for `id`, if any; its entry is
    /// what the model maps `id` to.
    fn find_entry_index(&self, id: u64) -> (r: Option<usize>)
        ensures
            match r {
                Some(i) => {
                    &&& i < self.bindings@.len()
                    &&& self.bindings@[i as int].0 == id
                    &&& forall|j: int|
                        i < j < self.bindings@.len() ==> (#[trigger] self.bindings@[j]).0 != id
                    &&& self@.contains_key(id)
                    &&& self@[id] == self.bindings@[i as int].1
                },
                None => !self@.contains_key(id),
            },
    {
        let mut i: usize = self.bindings.len();
        while i > 0
            invariant
                i <= self.bindings@.len(),
                forall|j: int| i <= j < self.bindings@.len() ==> (#[trigger] self.bindings@[j]).0 != id,
            decreases i,
        {
            i = i - 1;
            if self.bindings[i].0 == id {
                proof {
                    lemma_model_index(self.bindings@, id, i as int);
                }
                return Some(i);
            }
        }
        proof {
            lemma_model_contains(self.bindings@, id);
        }
        None
    }

    /// Checks a type-erased instance against the capability a caller asked
    /// for, handing out a shared clone of the held value when the tags agree.
    fn downcast_resolved(expected: u64, resolved: &Instance<T>) -> (r: Result<
        Arc<T>,
        InjectionError,
    >)
        ensures
            r == downcast_model(expected, *resolved),
    {
        if resolved.tag == expected {
            Ok(arc_clone(&resolved.value))
        } else {
            Err(InjectionError::TypeNotBound)
        }
    }

    /// An independent working copy whose model is the same map.
    fn duplicate(&self) -> (r: Self)
        ensures
            r@ == self@,
    {
        proof {
            use_type_invariant(&*self);
        }
        let mut b: Vec<(u64, Resolution<F, T>)> = Vec::new();
        let mut i: usize = 0;
        while i < self.bindings.len()
            invariant
                i <= self.bindings@.len(),
                b@.len() == i,
                forall|j: int| 0 <= j < i ==> b@[j] == self.bindings@[j],
                forall|j: int| 0 <= j < self.bindings@.len() ==> entry_wf(
                    #[trigger] self.bindings@[j].1,
                ),
            decreases self.bindings@.len() - i,
        {
            let key = self.bindings[i].0;
            let e = &self.bindings[i].1;
            let stored = match &e.stored_instance {
                Some(inst) => Some(Instance { tag: inst.tag, value: arc_clone(&inst.value) }),
                None => None,
            };
            let entry = Resolution {
                resolution_type: e.resolution_type,
                stored_instance: stored,
                resolution_fn: arc_clone(&e.resolution_fn),
            };
            b.push((key, entry));
            i = i + 1;
        }
        proof {
            assert(b@ =~= self.bindings@);
        }
        Container { bindings: b }
    }

    /// What a mutable resolution of `id` guarantees, relating the table
    /// before the call, the table after it, and the returned value.
    ///
    /// For an unbound identity nothing changes and `TypeNotBound` comes
    /// back; for a cached `Singleton` nothing changes and the cached
    /// instance is downcast; for an uncached `Singleton` a successful
    /// resolution leaves the freshly produced instance cached under `id`,
    /// with the binding's factory kept. The produced value of a `Transient`
    /// resolution or of a failed factory run is the factory's to choose and
    /// is pinned no further here; what any resolution does to the table is
    /// bounded by the `frame_preserved` clause stated beside this relation.
    pub open spec fn resolve_mut_post(
        pre: Self,
        id: u64,
        post: Self,
        r: Result<Arc<T>, InjectionError>,
    ) -> bool {
        if !pre@.contains_key(id) {
            post == pre && r == Err::<Arc<T>, InjectionError>(InjectionError::TypeNotBound)
        } else {
            let e = pre@[id];
            match e.resolution_type {
                ResolutionType::Singleton => match e.stored_instance {
                    Some(inst) => post == pre && r == downcast_model(id, inst),
                    None => r matches Ok(v) ==> post@.contains_key(id) && post@[id]
                        == (Resolution {
                        resolution_type: ResolutionType::Singleton,
                        stored_instance: Some(Instance { tag: id, value: v }),
                        resolution_fn: e.resolution_fn,
                    }),
                },
                ResolutionType::Transient => true,
            }
        }
    }

    /// What a read-only resolution of `id` guarantees. The table itself is
    /// untouched (the receiver is shared); an unbound identity yields
    /// `TypeNotBound`, a cached `Singleton` yields its downcast instance,
    /// and in every other case the factory runs on a private working copy,
    /// so the returned value is the factory's to choose and nothing of the
    /// outcome is pinned.
    pub open spec fn resolve_post(c: Self, id: u64, r: Result<Arc<T>, InjectionError>) -> bool {
        if !c@.contains_key(id) {
            r == Err::<Arc<T>, InjectionError>(InjectionError::TypeNotBound)
        } else {
            match c@[id].resolution_type {
                ResolutionType::Singleton => match c@[id].stored_instance {
                    Some(inst) => r == downcast_model(id, inst),
                    None => true,
                },
                ResolutionType::Transient => true,
            }
        }
    }

    /// Whether every `Singleton` binding of the table already holds its
    /// cached instance: the state a successful `build` ensures, under which
    /// no resolution ever runs a `Singleton` factory again.
    pub open spec fn fully_built(c: Self) -> bool {
        forall|k: u64| #[trigger]
            c@.contains_key(k) && c@[k].resolution_type is Singleton
                ==> c@[k].stored_instance is Some
    }

    /// The table's well-formedness, stated over its model: every bound
    /// entry satisfies the entry invariant, so a cached instance can only
    /// ever sit in a `Singleton` binding. Every operation of the table
    /// guarantees it of the tables it hands back.
    pub open spec fn table_wf(c: Self) -> bool {
        forall|k: u64| #[trigger] c@.contains_key(k) ==> entry_wf(c@[k])
    }

    proof fn lemma_table_wf(self)
        requires
            self.inv(),
        ensures
            Self::table_wf(self),
    {
        assert forall|k: u64| #[trigger] self@.contains_key(k) implies entry_wf(self@[k]) by {
            lemma_model_entry_from_seq(self.bindings@, k);
            let i = choose|i: int|
                0 <= i < self.bindings@.len() && (#[trigger] self.bindings@[i]) == (
                k,
                table_model(self.bindings@)[k],
                );
            assert(entry_wf(self.bindings@[i].1));
        }
    }

    /// Law: in a well-formed table — and every table this module hands out
    /// is — a `Transient` binding never holds a cached instance, so each of
    /// its resolutions reaches its factory afresh.
    pub proof fn lemma_transient_never_cached(c: Self, id: u64)
        requires
            Self::table_wf(c),
            c@.contains_key(id),
            c@[id].resolution_type is Transient,
        ensures
            c@[id].stored_instance is None,
    {
    }

    /// Law: a capability that was never bound resolves to `TypeNotBound` in
    /// both forms, and the mutable form leaves the table unchanged.
    pub proof fn lemma_unbound_resolution_fails(
        pre: Self,
        post: Self,
        id: u64,
        r_mut: Result<Arc<T>, InjectionError>,
        r_ro: Result<Arc<T>, InjectionError>,
    )
        requires
            !pre@.contains_key(id),
            Self::resolve_mut_post(pre, id, post, r_mut),
            Self::resolve_post(pre, id, r_ro),
        ensures
            r_mut == Err::<Arc<T>, InjectionError>(InjectionError::TypeNotBound),
            r_ro == Err::<Arc<T>, InjectionError>(InjectionError::TypeNotBound),
            post == pre,
    {
    }

    /// Law: for a `Singleton` binding, two successive mutable resolutions on
    /// the same table value hand back the same instance, and the second
    /// leaves the table exactly as the first left it, so the cached instance
    /// — not a fresh factory run — is what the second call returns.
    pub proof fn lemma_singleton_resolve_mut_stable(
        c0: Self,
        c1: Self,
        c2: Self,
        id: u64,
        r1: Result<Arc<T>, InjectionError>,
        r2: Result<Arc<T>, InjectionError>,
    )
        requires
            c0@.contains_key(id),
            c0@[id].resolution_type is Singleton,
            Self::resolve_mut_post(c0, id, c1, r1),
            r1 is Ok,
            Self::resolve_mut_post(c1, id, c2, r2),
        ensures
            r2 == r1,
            c2 == c1,
    {
    }

    /// Law: on a fully built table — the state a successful `build`
    /// ensures — resolving a bound `Singleton` in either
    /// form yields the downcast of its cached instance, and the mutable form
    /// leaves the table unchanged — still fully built — so no number of
    /// further resolutions ever runs a `Singleton` factory again.
    pub proof fn lemma_built_resolution_cached(
        c: Self,
        post: Self,
        id: u64,
        r_mut: Result<Arc<T>, InjectionError>,
        r_ro: Result<Arc<T>, InjectionError>,
    )
        requires
            Self::fully_built(c),
            c@.contains_key(id),
            c@[id].resolution_type is Singleton,
            Self::resolve_mut_post(c, id, post, r_mut),
            Self::resolve_post(c, id, r_ro),
        ensures
            c@[id].stored_instance matches Some(inst) && r_mut == downcast_model(id, inst)
                && r_ro == downcast_model(id, inst),
            post == c,
            Self::fully_built(post),
    {
    }

    /// Law: after a merge, a capability bound in the merged-in table is
    /// mapped to that table's whole entry — lifecycle, cache and factory —
    /// never the base's.
    pub proof fn lemma_merge_prefers_other(base: Self, other: Self, merged: Self, id: u64)
        requires
            merged@ == base@.union_prefer_right(other@),
            other@.contains_key(id),
        ensures
            merged@.contains_key(id),
            merged@[id] == other@[id],
    {
    }

}

impl<F: Injectable<T>, T> Container<F, T> {
    /// Resolves the capability `id`, caching the produced instance when the
    /// binding is an uncached `Singleton`: later resolutions then reuse it.
    /// Whatever the outcome, the table's frame survives: no binding appears,
    /// disappears or changes lifecycle or factory, and cache slots are only
    /// ever filled, never rewritten.
    pub fn resolve_mut(&mut self, id: u64) -> (r: Result<Arc<T>, InjectionError>)
        ensures
            Self::resolve_mut_post(*old(self), id, *final(self), r),
            Self::table_wf(*final(self)),
            frame_preserved(*old(self), *final(self)),
    {
        proof {
            use_type_invariant(&*self);
            (*self).lemma_table_wf();
        }
        let idx = match self.find_entry_index(id) {
            Some(i) => i,
            None => {
                return Err(InjectionError::TypeNotBound);
            },
        };
        let rt = self.bindings[idx].1.resolution_type;
        match rt {
            ResolutionType::Singleton => {
                match &self.bindings[idx].1.stored_instance {
                    Some(inst) => Self::downcast_resolved(id, inst),
                    None => {
                        let factory = arc_clone(&self.bindings[idx].1.resolution_fn);
                        let res = factory.resolve_injectable(self);
                        let ghost mid = *self;
                        proof {
                            use_type_invariant(&*self);
                            (*self).lemma_table_wf();
                        }
                        let produced = match res {
                            Ok(p) => p,
                            Err(e) => {
                                return Err(e);
                            },
                        };
                        let cache_inst = Instance {
                            tag: produced.tag,
                            value: arc_clone(&produced.value),
                        };
                        let entry = Resolution {
                            resolution_type: ResolutionType::Singleton,
                            stored_instance: Some(cache_inst),
                            resolution_fn: factory,
                        };
                        let ghost entry_g = entry;
                        self.push_entry(id, entry);
                        proof {
                            use_type_invariant(&*self);
                            (*self).lemma_table_wf();
                            lemma_frame_grow_cache(*old(self), mid, *self, id, entry_g);
                        }
                        Self::downcast_resolved(id, &produced)
                    },
                }
            },
            ResolutionType::Transient => {
                let factory = arc_clone(&self.bindings[idx].1.resolution_fn);
                let res = factory.resolve_injectable(self);
                proof {
                    use_type_invariant(&*self);
                    (*self).lemma_table_wf();
                }
                match res {
                    Ok(p) => Self::downcast_resolved(id, &p),
                    Err(e) => Err(e),
                }
            },
        }
    }

    /// Resolves the capability `id` without touching the caller's table: an
    /// uncached `Singleton` or a `Transient` binding runs its factory on a
    /// private working copy, so the result is never persisted and a later
    /// read-only resolution of an uncached `Singleton` runs the factory
    /// again. Callers that need once-only semantics through this form call
    /// `build` first.
    pub fn resolve(&self, id: u64) -> (r: Result<Arc<T>, InjectionError>)
        ensures
            Self::resolve_post(*self, id, r),
            Self::table_wf(*self),
    {
        proof {
            use_type_invariant(&*self);
            (*self).lemma_table_wf();
        }
        let idx = match self.find_entry_index(id) {
            Some(i) => i,
            None => {
                return Err(InjectionError::TypeNotBound);
            },
        };
        match self.bindings[idx].1.resolution_type {
            ResolutionType::Singleton => {
                match &self.bindings[idx].1.stored_instance {
                    Some(inst) => Self::downcast_resolved(id, inst),
                    None => {
                        let factory = arc_clone(&self.bindings[idx].1.resolution_fn);
                        let mut work = self.duplicate();
                        match factory.resolve_injectable(&mut work) {
                            Ok(p) => Self::downcast_resolved(id, &p),
                            Err(e) => Err(e),
                        }
                    },
                }
            },
            ResolutionType::Transient => {
                let factory = arc_clone(&self.bindings[idx].1.resolution_fn);
                let mut work = self.duplicate();
                match factory.resolve_injectable(&mut work) {
                    Ok(p) => Self::downcast_resolved(id, &p),
                    Err(e) => Err(e),
                }
            },
        }
    }

    /// Eagerly materializes every `Singleton` binding that is not yet
    /// cached, invoking its factory once and storing the result, so that the
    /// table can afterwards be used through the read-only `resolve` while
    /// keeping once-only semantics. `Transient` bindings are untouched. The
    /// pass walks a snapshot of the table taken at the start; the first
    /// factory error aborts it. On success the table is `fully_built` — no
    /// later resolution of any of its `Singleton` bindings runs a factory —
    /// and the frame is preserved: the same identities, lifecycles and
    /// factories, with cache slots only filled. On a table whose singletons
    /// are all cached already, it is a no-op: `build` is idempotent.
    #[verifier::loop_isolation(false)]
    pub fn build(self) -> (r: Result<Self, InjectionError>)
        ensures
            Self::fully_built(self) ==> r == Ok::<Self, InjectionError>(self),
            r matches Ok(c) ==> Self::fully_built(c) && Self::table_wf(c) && frame_preserved(
                self,
                c,
            ),
    {
        let ghost orig = self;
        let snap = self.duplicate();
        let mut s = self;
        let mut i: usize = 0;
        proof {
            assert forall|k: u64| #[trigger]
                orig@.contains_key(k) && orig@[k].resolution_type is Singleton implies ((exists|
            j: int|
                0 <= j < snap.bindings@.len() && (#[trigger] snap.bindings@[j]).0 == k)
                || s@[k].stored_instance is Some) by {
                assert(snap@.contains_key(k));
                lemma_model_contains(snap.bindings@, k);
            }
        }
        while i < snap.bindings.len()
            invariant
                snap@ == orig@,
                Self::fully_built(orig) ==> s == orig,
                frame_preserved(orig, s),
                forall|k: u64| #[trigger]
                    orig@.contains_key(k) && orig@[k].resolution_type is Singleton ==> ((exists|
                j: int|
                    i <= j < snap.bindings@.len() && (#[trigger] snap.bindings@[j]).0 == k)
                    || s@[k].stored_instance is Some),
            decreases snap.bindings@.len() - i,
        {
            let id = snap.bindings[i].0;
            let found_snap = snap.find_entry_index(id);
            let live = match found_snap {
                Some(j) => j == i,
                None => false,
            };
            let is_singleton = match snap.bindings[i].1.resolution_type {
                ResolutionType::Singleton => true,
                ResolutionType::Transient => false,
            };
            let found_cur = s.find_entry_index(id);
            let has_stored = match found_cur {
                Some(ci) => s.bindings[ci].1.stored_instance.is_some(),
                None => false,
            };
            let ghost s_top = s;
            if live && is_singleton && !has_stored {
                proof {
                    if Self::fully_built(orig) {
                        assert(orig@.contains_key(id));
                        assert(orig@[id].stored_instance is Some);
                        assert(false);
                    }
                    assert(s@.contains_key(id));
                    assert(s@[id].stored_instance is None);
                    assert(orig@[id].stored_instance is None);
                }
                let ghost s_pre = s;
                let factory = arc_clone(&snap.bindings[i].1.resolution_fn);
                let produced = match factory.resolve_injectable(&mut s) {
                    Ok(p) => p,
                    Err(e) => {
                        return Err(e);
                    },
                };
                let entry = Resolution {
                    resolution_type: ResolutionType::Singleton,
                    stored_instance: Some(produced),
                    resolution_fn: factory,
                };
                let ghost entry_g = entry;
                let ghost s_mid = s;
                s.push_entry(id, entry);
                proof {
                    lemma_frame_trans(orig, s_pre, s_mid);
                    lemma_frame_grow_cache(orig, s_mid, s, id, entry_g);
                    assert forall|k: u64| #[trigger]
                        orig@.contains_key(k) && orig@[k].resolution_type is Singleton implies ((
                    exists|j: int|
                        i + 1 <= j < snap.bindings@.len() && (#[trigger] snap.bindings@[j]).0 == k)
                        || s@[k].stored_instance is Some) by {
                        if k == id {
                            assert(s@[id] == entry_g);
                        } else {
                            if s_pre@[k].stored_instance is Some {
                                assert(s_pre@.contains_key(k));
                                assert(s_mid@[k].stored_instance == s_pre@[k].stored_instance);
                                assert(s@[k] == s_mid@[k]);
                            } else {
                                let j = choose|j: int|
                                    i <= j < snap.bindings@.len() && (#[trigger] snap.bindings@[j]).0
                                        == k;
                                assert(i + 1 <= j < snap.bindings@.len()
                                    && snap.bindings@[j].0 == k);
                            }
                        }
                    }
                }
            } else {
                proof {
                    assert forall|k: u64| #[trigger]
                        orig@.contains_key(k) && orig@[k].resolution_type is Singleton implies ((
                    exists|j: int|
                        i + 1 <= j < snap.bindings@.len() && (#[trigger] snap.bindings@[j]).0 == k)
                        || s@[k].stored_instance is Some) by {
                        if s@[k].stored_instance is None {
                            let j = choose|j: int|
                                i <= j < snap.bindings@.len() && (#[trigger] snap.bindings@[j]).0
                                    == k;
                            if j == i {
                                assert(k == id);
                                if live {
                                    if is_singleton {
                                        // has_stored held, else the other branch ran
                                        assert(s@[id].stored_instance is Some);
                                        assert(false);
                                    } else {
                                        assert(orig@[id].resolution_type is Transient);
                                        assert(false);
                                    }
                                } else {
                                    // the latest binding for id sits further on
                                    lemma_model_contains(snap.bindings@, id);
                                    let j_last = match found_snap {
                                        Some(jl) => jl as int,
                                        None => 0,
                                    };
                                    assert(found_snap is Some);
                                    assert(i + 1 <= j_last < snap.bindings@.len()
                                        && snap.bindings@[j_last].0 == id);
                                }
                            } else {
                                assert(i + 1 <= j < snap.bindings@.len()
                                    && snap.bindings@[j].0 == k);
                            }
                        }
                    }
                }
            }
            i = i + 1;
        }
        proof {
            use_type_invariant(&s);
            s.lemma_table_wf();
            assert forall|k: u64| #[trigger]
                s@.contains_key(k) && s@[k].resolution_type is Singleton implies s@[k].stored_instance is Some by {
                assert(orig@.contains_key(k));
                assert(binding_preserved(orig@[k], s@[k]));
            }
        }
        Ok(s)
    }
}

} // verus!
