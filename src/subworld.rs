use vstd::prelude::*;

use crate::access::{has_spec, lemma_subset_transitive, subset_spec, Access, AccessSet};
use crate::error::{Entity, Error, Result};

verus! {

/// What the store reports when asked for one component of one entity.
pub enum Lookup<R> {
    /// The entity has the component; here is the handle to it.
    Found(R),
    /// The entity is not in the store.
    NoSuchEntity,
    /// The entity is in the store but lacks the component.
    MissingComponent,
}

/// The outcome of a component lookup for `entity` and component `key`.
pub open spec fn lookup_outcome<R>(entity: Entity, key: u64, found: Lookup<R>) -> Result<R> {
    match found {
        Lookup::Found(v) => Ok(v),
        Lookup::NoSuchEntity => Err(Error::NoSuchEntity(entity)),
        Lookup::MissingComponent => Err(Error::MissingComponent(entity, key)),
    }
}

/// `r` is the refusal of a subworld holding `held` to a request for `wanted`.
pub open spec fn is_refusal<T>(r: Result<T>, held: Seq<Access>, wanted: Seq<Access>) -> bool {
    match r {
        Err(Error::IncompatibleSubworld { subworld, query }) => subworld@ == held && query@
            == wanted,
        _ => false,
    }
}

/// Turns what the store reported for `entity` and component `key` into the
/// subworld's result.
pub fn resolve_lookup<R>(entity: Entity, key: u64, found: Lookup<R>) -> (r: Result<R>)
    ensures
        r == lookup_outcome(entity, key, found),
{
    match found {
        Lookup::Found(v) => Ok(v),
        Lookup::NoSuchEntity => Err(Error::NoSuchEntity(entity)),
        Lookup::MissingComponent => Err(Error::MissingComponent(entity, key)),
    }
}

/// A borrow of the entity store that may only access what its descriptor set
/// grants. The set is fixed when the subworld is made; a subworld can only be
/// narrowed into another one.
pub struct SubWorldRaw<A> {
    frame: A,
    access: AccessSet,
}

impl<A> View for SubWorldRaw<A> {
    type V = Seq<Access>;

    /// The descriptor set that the subworld holds.
    closed spec fn view(&self) -> Seq<Access> {
        self.access@
    }
}

impl<A> SubWorldRaw<A> {
    /// The store handle the subworld wraps.
    pub closed spec fn handle(&self) -> &A {
        &self.frame
    }

    /// Makes a subworld over `frame` that holds the descriptor set `access`.
    pub fn new(frame: A, access: AccessSet) -> (r: Self)
        ensures
            r@ == access@,
            r.handle() == &frame,
    {
        SubWorldRaw { frame, access }
    }

    /// The descriptor set that the subworld holds.
    pub fn access(&self) -> (r: &AccessSet)
        ensures
            r@ == self@,
    {
        &self.access
    }

    /// Whether the subworld grants `want`.
    pub fn has(&self, want: &Access) -> (r: bool)
        ensures
            r == has_spec(self@, *want),
    {
        self.access.has(want)
    }

    /// Whether the subworld grants every descriptor of `query`.
    pub fn has_all(&self, query: &AccessSet) -> (r: bool)
        ensures
            r == subset_spec(query@, self@),
    {
        query.is_subset(&self.access)
    }

    fn refuse<T>(&self, query: AccessSet) -> (r: Result<T>)
        ensures
            is_refusal(r, self@, query@),
    {
        Err(Error::IncompatibleSubworld { subworld: self.access.duplicate(), query })
    }

    /// Checks a query against the subworld. On success, hands out the store
    /// handle to run the query on; otherwise the store is not touched.
    pub fn try_query(&self, query: &AccessSet) -> (r: Result<&A>)
        ensures
            subset_spec(query@, self@) ==> r == Ok::<&A, Error>(self.handle()),
            !subset_spec(query@, self@) ==> is_refusal(r, self@, query@),
    {
        if self.has_all(query) {
            Ok(&self.frame)
        } else {
            self.refuse(query.duplicate())
        }
    }

    /// Runs a query that the subworld is known to grant.
    pub fn query(&self, query: &AccessSet) -> (r: &A)
        requires
            subset_spec(query@, self@),
        ensures
            r == self.handle(),
    {
        &self.frame
    }

    /// Runs a query that the subworld is known to grant, for iteration in
    /// parallel.
    pub fn query_par(&self, query: &AccessSet) -> (r: &A)
        requires
            subset_spec(query@, self@),
        ensures
            r == self.handle(),
    {
        &self.frame
    }

    /// Runs `query` for one entity: checks the query first, and only then asks
    /// the store (`fetch`) for the entity.
    pub fn query_one<R, F: FnOnce(&A) -> Option<R>>(
        &self,
        query: &AccessSet,
        entity: Entity,
        fetch: F,
    ) -> (r: Result<R>)
        requires
            fetch.requires((self.handle(),)),
        ensures
            !subset_spec(query@, self@) ==> is_refusal(r, self@, query@),
            subset_spec(query@, self@) ==> exists|found: Option<R>|
                #![trigger fetch.ensures((self.handle(),), found)]
                fetch.ensures((self.handle(),), found) && r == match found {
                    Some(v) => Ok::<R, Error>(v),
                    None => Err(Error::NoSuchEntity(entity)),
                },
    {
        if !self.has_all(query) {
            return self.refuse(query.duplicate());
        }
        match fetch(&self.frame) {
            Some(v) => Ok(v),
            None => Err(Error::NoSuchEntity(entity)),
        }
    }

    /// Reads the component with key `key` of `entity`. The subworld must grant
    /// reading it; only then is the store asked (`fetch`).
    pub fn get<R, F: FnOnce(&A) -> Lookup<R>>(&self, key: u64, entity: Entity, fetch: F) -> (r:
        Result<R>)
        requires
            fetch.requires((self.handle(),)),
        ensures
            !has_spec(self@, Access::ReadComponent(key)) ==> is_refusal(
                r,
                self@,
                seq![Access::ReadComponent(key)],
            ),
            has_spec(self@, Access::ReadComponent(key)) ==> exists|found: Lookup<R>|
                #![trigger fetch.ensures((self.handle(),), found)]
                fetch.ensures((self.handle(),), found) && r == lookup_outcome(entity, key, found),
    {
        let want = Access::ReadComponent(key);
        if !self.has(&want) {
            let query = AccessSet::empty().with(want);
            return self.refuse(query);
        }
        let found = fetch(&self.frame);
        resolve_lookup(entity, key, found)
    }

    /// Writes the component with key `key` of `entity`. The subworld must grant
    /// writing it; only then is the store asked (`fetch`).
    pub fn get_mut<R, F: FnOnce(&A) -> Lookup<R>>(&self, key: u64, entity: Entity, fetch: F) -> (r:
        Result<R>)
        requires
            fetch.requires((self.handle(),)),
        ensures
            !has_spec(self@, Access::WriteComponent(key)) ==> is_refusal(
                r,
                self@,
                seq![Access::WriteComponent(key)],
            ),
            has_spec(self@, Access::WriteComponent(key)) ==> exists|found: Lookup<R>|
                #![trigger fetch.ensures((self.handle(),), found)]
                fetch.ensures((self.handle(),), found) && r == lookup_outcome(entity, key, found),
    {
        let want = Access::WriteComponent(key);
        if !self.has(&want) {
            let query = AccessSet::empty().with(want);
            return self.refuse(query);
        }
        let found = fetch(&self.frame);
        resolve_lookup(entity, key, found)
    }

    /// Reserves `count` fresh entities through the store (`reserve`). Needs
    /// no descriptor: allocating identifiers accesses no component.
    pub fn reserve_entities<R, F: FnOnce(&A, u32) -> R>(&self, count: u32, reserve: F) -> (r: R)
        requires
            reserve.requires((self.handle(), count)),
        ensures
            reserve.ensures((self.handle(), count), r),
    {
        reserve(&self.frame, count)
    }

    /// Narrows the subworld to the descriptor set `narrower`, over the same
    /// store handle. Fails, before anything else, when `narrower` asks for
    /// more than this subworld holds.
    pub fn split(&self, narrower: AccessSet) -> (r: Result<SubWorldRaw<&A>>)
        ensures
            subset_spec(narrower@, self@) ==> (r matches Ok(s) && s@ == narrower@ && *s.handle()
                == self.handle()),
            !subset_spec(narrower@, self@) ==> is_refusal(r, self@, narrower@),
    {
        if narrower.is_subset(&self.access) {
            Ok(SubWorldRaw { frame: &self.frame, access: narrower })
        } else {
            self.refuse(narrower)
        }
    }

    /// The subworld over the same handle that holds no descriptor: it can
    /// only enumerate entities.
    pub fn to_empty(&self) -> (r: SubWorldRaw<&A>)
        ensures
            r@ == Seq::<Access>::empty(),
            *r.handle() == self.handle(),
    {
        SubWorldRaw { frame: &self.frame, access: AccessSet::empty() }
    }
}

/// Narrowing never widens: when `narrower` is a subset of `held`, every
/// query that a subworld split to `narrower` accepts is one that `held`
/// accepts too, and a query that `held` refuses is refused after the split.
pub proof fn lemma_split_never_widens(held: Seq<Access>, narrower: Seq<Access>, query: Seq<Access>)
    requires
        subset_spec(narrower, held),
    ensures
        subset_spec(query, narrower) ==> subset_spec(query, held),
        !subset_spec(query, held) ==> !subset_spec(query, narrower),
{
    if subset_spec(query, narrower) {
        lemma_subset_transitive(query, narrower, held);
    }
}

} // verus!
