use vstd::prelude::*;

use crate::errors::Sbv2CoreError;
use crate::text::{chars_equal, chars_of};

verus! {

/// One registered voice: its identity, style matrix, weight bytes (always resident) and,
/// while it is within the budget, its inference session.
pub struct ModelEntry<S, V> {
    pub model_ident: String,
    pub style_vectors: V,
    pub bytes: Vec<u8>,
    pub session: Option<S>,
}

/// The voices and their sessions, with an optional cap on how many sessions are live.
pub struct TtsModelHolder<S, V> {
    pub models: Vec<ModelEntry<S, V>>,
    pub max_loaded_models: Option<usize>,
}

pub open spec fn is_hot<S, V>(e: ModelEntry<S, V>) -> bool {
    e.session is Some
}

/// The number of entries with a live session.
pub open spec fn hot_count<S, V>(m: Seq<ModelEntry<S, V>>) -> nat
    decreases m.len(),
{
    if m.len() == 0 {
        0
    } else {
        hot_count(m.drop_last()) + if is_hot(m.last()) {
            1nat
        } else {
            0nat
        }
    }
}

/// The identities of the entries, in order.
pub open spec fn idents<S, V>(m: Seq<ModelEntry<S, V>>) -> Seq<Seq<char>> {
    m.map_values(|e: ModelEntry<S, V>| e.model_ident@)
}

/// Which entries have a live session, in order.
pub open spec fn hotness<S, V>(m: Seq<ModelEntry<S, V>>) -> Seq<bool> {
    m.map_values(|e: ModelEntry<S, V>| is_hot(e))
}

/// The position of the entry with this identity, if any.
pub open spec fn index_of<S, V>(m: Seq<ModelEntry<S, V>>, ident: Seq<char>) -> Option<int> {
    if exists|i: int| 0 <= i < m.len() && m[i].model_ident@ == ident {
        Some(choose|i: int| 0 <= i < m.len() && m[i].model_ident@ == ident)
    } else {
        None
    }
}

/// The first entry with a live session other than entry `skip`.
pub open spec fn first_hot_except<S, V>(m: Seq<ModelEntry<S, V>>, skip: int) -> Option<int> {
    if exists|i: int| 0 <= i < m.len() && i != skip && is_hot(m[i]) {
        Some(
            choose|i: int|
                0 <= i < m.len() && i != skip && is_hot(m[i]) && forall|j: int|
                    0 <= j < i && j != skip ==> !is_hot(#[trigger] m[j]),
        )
    } else {
        None
    }
}

pub proof fn lemma_hot_count_update<S, V>(m: Seq<ModelEntry<S, V>>, i: int, e: ModelEntry<S, V>)
    requires
        0 <= i < m.len(),
    ensures
        hot_count(m.update(i, e)) + (if is_hot(m[i]) {
            1int
        } else {
            0int
        }) == hot_count(m) + (if is_hot(e) {
            1int
        } else {
            0int
        }),
    decreases m.len(),
{
    if i < m.len() - 1 {
        lemma_hot_count_update(m.drop_last(), i, e);
        assert(m.update(i, e).drop_last() =~= m.drop_last().update(i, e));
    } else {
        assert(m.update(i, e).drop_last() =~= m.drop_last());
    }
}

pub proof fn lemma_hot_count_remove<S, V>(m: Seq<ModelEntry<S, V>>, i: int)
    requires
        0 <= i < m.len(),
    ensures
        hot_count(m.remove(i)) + (if is_hot(m[i]) {
            1int
        } else {
            0int
        }) == hot_count(m),
    decreases m.len(),
{
    if i < m.len() - 1 {
        lemma_hot_count_remove(m.drop_last(), i);
        assert(m.remove(i).drop_last() =~= m.drop_last().remove(i));
    } else {
        assert(m.remove(i) =~= m.drop_last());
    }
}

pub proof fn lemma_hot_count_bound<S, V>(m: Seq<ModelEntry<S, V>>)
    ensures
        hot_count(m) <= m.len(),
        hot_count(m) == m.len() <==> forall|i: int| 0 <= i < m.len() ==> is_hot(#[trigger] m[i]),
        hot_count(m) > 0 <==> exists|i: int| 0 <= i < m.len() && is_hot(#[trigger] m[i]),
    decreases m.len(),
{
    if m.len() > 0 {
        lemma_hot_count_bound(m.drop_last());
        let d = m.drop_last();
        assert(forall|i: int| 0 <= i < d.len() ==> d[i] == m[i]);
        if hot_count(m) == m.len() {
            assert forall|i: int| 0 <= i < m.len() implies is_hot(#[trigger] m[i]) by {
                if i < m.len() - 1 {
                    assert(d[i] == m[i]);
                }
            }
        }
        if exists|i: int| 0 <= i < m.len() && is_hot(#[trigger] m[i]) {
            let i = choose|i: int| 0 <= i < m.len() && is_hot(#[trigger] m[i]);
            if i < m.len() - 1 {
                assert(is_hot(d[i]));
            }
        }
        if hot_count(d) > 0 {
            let i = choose|i: int| 0 <= i < d.len() && is_hot(#[trigger] d[i]);
            assert(is_hot(m[i]));
        }
    }
}

impl<S, V> TtsModelHolder<S, V> {
    /// The identities are distinct; without a cap every entry is live, with one the live
    /// sessions stay within it.
    pub open spec fn wf(&self) -> bool {
        &&& forall|i: int, j: int|
            #![trigger self.models@[i], self.models@[j]]
            0 <= i < j < self.models@.len() ==> self.models@[i].model_ident@
                != self.models@[j].model_ident@
        &&& match self.max_loaded_models {
            None => forall|i: int| 0 <= i < self.models@.len() ==> is_hot(#[trigger] self.models@[i]),
            Some(c) => 1 <= c && hot_count(self.models@) <= c,
        }
    }

    /// Whether a newly registered voice gets its session at once.
    pub open spec fn spec_session_wanted(&self) -> bool {
        match self.max_loaded_models {
            None => true,
            Some(c) => hot_count(self.models@) < c,
        }
    }

    /// An empty holder; `Some(c)` bounds the live sessions by `c`, which must be positive.
    pub fn new(max_loaded_models: Option<usize>) -> (r: Self)
        requires
            max_loaded_models != Some(0usize),
        ensures
            r.wf(),
            r.models@.len() == 0,
            r.max_loaded_models == max_loaded_models,
    {
        TtsModelHolder { models: Vec::new(), max_loaded_models }
    }

    /// The position of the voice with this identity.
    pub fn find(&self, model_ident: &str) -> (r: Option<usize>)
        requires
            self.wf(),
        ensures
            r is Some <==> index_of(self.models@, model_ident@) is Some,
            r is Some ==> r->0 as int == index_of(self.models@, model_ident@)->0,
            r is Some ==> r->0 < self.models@.len() && self.models@[r->0 as int].model_ident@
                == model_ident@,
    {
        let target = chars_of(model_ident);
        let mut i: usize = 0;
        while i < self.models.len()
            invariant
                self.wf(),
                target@ == model_ident@,
                i <= self.models@.len(),
                forall|k: int| 0 <= k < i ==> self.models@[k].model_ident@ != model_ident@,
            decreases self.models@.len() - i,
        {
            let name = chars_of(self.models[i].model_ident.as_str());
            if chars_equal(&name, &target) {
                proof {
                    assert(self.models@[i as int].model_ident@ == model_ident@);
                    let j = index_of(self.models@, model_ident@)->0;
                    assert(self.models@[j].model_ident@ == model_ident@);
                    if j < i {
                        assert(self.models@[j].model_ident@ != model_ident@);
                    } else if j > i {
                        assert(self.models@[i as int].model_ident@ != self.models@[j].model_ident@);
                    }
                }
                return Some(i);
            }
            i = i + 1;
        }
        None
    }

    /// The number of live sessions (without a cap: every registered voice).
    pub fn get_loadedmodel_count(&self) -> (r: usize)
        ensures
            r == hot_count(self.models@),
    {
        let mut count: usize = 0;
        let mut i: usize = 0;
        while i < self.models.len()
            invariant
                i <= self.models@.len(),
                count == hot_count(self.models@.subrange(0, i as int)),
                count <= i,
            decreases self.models@.len() - i,
        {
            proof {
                assert(self.models@.subrange(0, i + 1).drop_last() =~= self.models@.subrange(
                    0,
                    i as int,
                ));
            }
            if self.models[i].session.is_some() {
                count = count + 1;
            }
            i = i + 1;
        }
        proof {
            assert(self.models@.subrange(0, i as int) =~= self.models@);
        }
        count
    }

    /// With a cap, whether the live sessions have reached it; without one, never.
    pub fn is_max_models_loaded(&self) -> (r: bool)
        ensures
            r == match self.max_loaded_models {
                None => false,
                Some(c) => hot_count(self.models@) >= c,
            },
    {
        match self.max_loaded_models {
            None => false,
            Some(c) => self.get_loadedmodel_count() >= c,
        }
    }

    /// Whether `load` would give a new voice its session at once.
    pub fn session_wanted(&self) -> (r: bool)
        ensures
            r == self.spec_session_wanted(),
    {
        !self.is_max_models_loaded()
    }

    /// Registers a voice. Nothing changes if the identity is taken. Otherwise the voice is
    /// added at the end, live with `session` when a session is wanted, cold otherwise.
    pub fn load(&mut self, model_ident: &str, style_vectors: V, bytes: Vec<u8>, session: Option<S>) -> (r: bool)
        requires
            old(self).wf(),
            old(self).spec_session_wanted() ==> session is Some,
        ensures
            final(self).wf(),
            final(self).max_loaded_models == old(self).max_loaded_models,
            r == (index_of(old(self).models@, model_ident@) is None),
            !r ==> final(self).models@ == old(self).models@,
            r ==> final(self).models@.len() == old(self).models@.len() + 1,
            r ==> final(self).models@.subrange(0, old(self).models@.len() as int) == old(self).models@,
            r ==> final(self).models@.last().model_ident@ == model_ident@,
            r ==> final(self).models@.last().bytes@ == bytes@,
            r ==> final(self).models@.last().style_vectors == style_vectors,
            r ==> (is_hot(final(self).models@.last()) <==> old(self).spec_session_wanted()),
    {
        if self.find(model_ident).is_some() {
            return false;
        }
        let wanted = self.session_wanted();
        let entry = ModelEntry {
            model_ident: model_ident.to_owned(),
            style_vectors,
            bytes,
            session: if wanted {
                session
            } else {
                None
            },
        };
        let ghost before = self.models@;
        self.models.push(entry);
        proof {
            assert(self.models@.drop_last() =~= before);
            assert(self.models@.subrange(0, before.len() as int) =~= before);
            assert forall|i: int, j: int| 0 <= i < j < self.models@.len() implies self.models@[i].model_ident@
                != self.models@[j].model_ident@ by {
                if j == before.len() {
                    assert(before[i].model_ident@ != model_ident@);
                }
            }
        }
        true
    }

    /// Removes the voice with this identity, live or cold; says whether there was one.
    pub fn unload(&mut self, model_ident: &str) -> (r: bool)
        requires
            old(self).wf(),
        ensures
            final(self).wf(),
            final(self).max_loaded_models == old(self).max_loaded_models,
            r == (index_of(old(self).models@, model_ident@) is Some),
            !r ==> final(self).models@ == old(self).models@,
            r ==> final(self).models@ == old(self).models@.remove(
                index_of(old(self).models@, model_ident@)->0,
            ),
            index_of(final(self).models@, model_ident@) is None,
    {
        match self.find(model_ident) {
            None => false,
            Some(i) => {
                let ghost before = self.models@;
                self.models.remove(i);
                proof {
                    lemma_hot_count_remove(before, i as int);
                    assert forall|a: int, b: int| 0 <= a < b < self.models@.len() implies self.models@[a].model_ident@
                        != self.models@[b].model_ident@ by {
                        let a0 = if a < i { a } else { a + 1 };
                        let b0 = if b < i { b } else { b + 1 };
                        assert(self.models@[a] == before[a0]);
                        assert(self.models@[b] == before[b0]);
                    }
                    if index_of(self.models@, model_ident@) is Some {
                        let k = choose|k: int| 0 <= k < self.models@.len() && self.models@[k].model_ident@ == model_ident@;
                        let k0 = if k < i { k } else { k + 1 };
                        assert(self.models@[k] == before[k0]);
                    }
                    match self.max_loaded_models {
                        None => {
                            assert forall|a: int| 0 <= a < self.models@.len() implies is_hot(#[trigger] self.models@[a]) by {
                                let a0 = if a < i { a } else { a + 1 };
                                assert(self.models@[a] == before[a0]);
                            }
                        },
                        Some(c) => {},
                    }
                }
                true
            },
        }
    }

    /// The identities of the registered voices, in order.
    pub fn model_idents(&self) -> (r: Vec<String>)
        ensures
            r@.map_values(|s: String| s@) == idents(self.models@),
    {
        let mut out: Vec<String> = Vec::new();
        let mut i: usize = 0;
        while i < self.models.len()
            invariant
                i <= self.models@.len(),
                out@.len() == i,
                forall|k: int| 0 <= k < i ==> (#[trigger] out@[k])@ == self.models@[k].model_ident@,
            decreases self.models@.len() - i,
        {
            out.push(self.models[i].model_ident.clone());
            i = i + 1;
        }
        assert(out@.map_values(|s: String| s@) =~= idents(self.models@));
        out
    }

    /// What activating a voice needs: the voice must be registered; `None` when nothing is
    /// to be done (no cap, or already live), else the position whose session must be built.
    pub fn model_session_preparation(&self, model_ident: &str) -> (r: Result<Option<usize>, Sbv2CoreError>)
        requires
            self.wf(),
        ensures
            index_of(self.models@, model_ident@) is None <==> r is Err,
            r is Err ==> r->Err_0 is ModelNotFoundError && r->Err_0->ModelNotFoundError_0@
                == model_ident@,
            r is Ok ==> {
                let i = index_of(self.models@, model_ident@)->0;
                r->Ok_0 == if self.max_loaded_models is None || is_hot(self.models@[i]) {
                    None
                } else {
                    Some(i as usize)
                }
            },
    {
        match self.find(model_ident) {
            None => Err(Sbv2CoreError::ModelNotFoundError(model_ident.to_owned())),
            Some(i) => {
                if self.max_loaded_models.is_none() || self.models[i].session.is_some() {
                    Ok(None)
                } else {
                    Ok(Some(i))
                }
            },
        }
    }

    fn set_session(&mut self, i: usize, session: Option<S>)
        requires
            i < old(self).models@.len(),
        ensures
            final(self).max_loaded_models == old(self).max_loaded_models,
            final(self).models@.len() == old(self).models@.len(),
            forall|k: int|
                0 <= k < old(self).models@.len() && k != i ==> final(self).models@[k] == old(
                    self,
                ).models@[k],
            final(self).models@[i as int].model_ident == old(self).models@[i as int].model_ident,
            final(self).models@[i as int].bytes == old(self).models@[i as int].bytes,
            final(self).models@[i as int].style_vectors == old(self).models@[i as int].style_vectors,
            final(self).models@[i as int].session == session,
    {
        let mut e = self.models.remove(i);
        e.session = session;
        self.models.insert(i, e);
    }

    /// Installs a freshly built session for the cold voice at `i`. When the live sessions
    /// are at or above one below the cap, the first other live voice is evicted first; its
    /// weights and styles stay.
    pub fn activate(&mut self, i: usize, session: S)
        requires
            old(self).wf(),
            i < old(self).models@.len(),
            old(self).max_loaded_models is Some,
            !is_hot(old(self).models@[i as int]),
        ensures
            final(self).wf(),
            final(self).max_loaded_models == old(self).max_loaded_models,
            idents(final(self).models@) == idents(old(self).models@),
            final(self).models@[i as int].session == Some(session),
            final(self).models@[i as int].bytes == old(self).models@[i as int].bytes,
            final(self).models@[i as int].style_vectors == old(self).models@[i as int].style_vectors,
            hot_count(final(self).models@) <= old(self).max_loaded_models->0,
            hot_count(final(self).models@) == if hot_count(old(self).models@) + 1
                >= old(self).max_loaded_models->0 && hot_count(old(self).models@) > 0 {
                hot_count(old(self).models@)
            } else {
                hot_count(old(self).models@) + 1
            },
            ({
                let c = old(self).max_loaded_models->0;
                let ev = first_hot_except(old(self).models@, i as int);
                forall|k: int|
                    0 <= k < old(self).models@.len() && k != i ==> {
                        let evicted = hot_count(old(self).models@) + 1 >= c && ev == Some(k);
                        &&& (#[trigger] final(self).models@[k]).bytes == old(self).models@[k].bytes
                        &&& final(self).models@[k].style_vectors == old(self).models@[k].style_vectors
                        &&& (evicted ==> final(self).models@[k].session is None)
                        &&& (!evicted ==> final(self).models@[k].session == old(self).models@[k].session)
                    }
            }),
            hot_count(old(self).models@) + 1 >= old(self).max_loaded_models->0 && hot_count(
                old(self).models@,
            ) > 0 ==> first_hot_except(old(self).models@, i as int) is Some,
    {
        let ghost m0 = self.models@;
        let c = match self.max_loaded_models {
            Some(c) => c,
            None => 1,
        };
        let count = self.get_loadedmodel_count();
        proof {
            lemma_hot_count_bound(m0);
        }
        if count >= c - 1 {
            let mut k: usize = 0;
            let mut found: Option<usize> = None;
            while k < self.models.len()
                invariant
                    self.models@ == m0,
                    k <= m0.len(),
                    found is None ==> forall|j: int| 0 <= j < k && j != i ==> !is_hot(#[trigger] m0[j]),
                    found is Some ==> found->0 < m0.len() && found->0 != i && is_hot(m0[found->0 as int])
                        && forall|j: int| 0 <= j < found->0 && j != i ==> !is_hot(#[trigger] m0[j]),
                decreases m0.len() - k,
            {
                if found.is_none() && k != i && self.models[k].session.is_some() {
                    found = Some(k);
                }
                k = k + 1;
            }
            proof {
                if count > 0 {
                    let w = choose|w: int| 0 <= w < m0.len() && is_hot(#[trigger] m0[w]);
                    assert(w != i);
                    assert(found is Some);
                }
                if found is Some {
                    let f = found->0 as int;
                    assert(exists|w: int| 0 <= w < m0.len() && w != i && is_hot(m0[w]));
                    let ch = first_hot_except(m0, i as int)->0;
                    if ch < f {
                        assert(!is_hot(m0[ch]));
                    } else if ch > f {
                        assert(!is_hot(m0[f]));
                    }
                    assert(first_hot_except(m0, i as int) == Some(f));
                } else {
                    assert(first_hot_except(m0, i as int) is None);
                }
            }
            match found {
                Some(e) => {
                    let ghost m1 = self.models@;
                    self.set_session(e, None);
                    proof {
                        assert(self.models@ =~= m1.update(e as int, self.models@[e as int]));
                        lemma_hot_count_update(m1, e as int, self.models@[e as int]);
                    }
                },
                None => {},
            }
        }
        let ghost m2 = self.models@;
        self.set_session(i, Some(session));
        proof {
            assert(self.models@ =~= m2.update(i as int, self.models@[i as int]));
            lemma_hot_count_update(m2, i as int, self.models@[i as int]);
            assert(idents(self.models@) =~= idents(m0));
            assert forall|a: int, b: int|
                #![trigger self.models@[a], self.models@[b]]
                0 <= a < b < self.models@.len() implies self.models@[a].model_ident@
                    != self.models@[b].model_ident@ by {
                assert(idents(self.models@)[a] == idents(m0)[a]);
                assert(idents(self.models@)[b] == idents(m0)[b]);
                assert(m0[a].model_ident@ != m0[b].model_ident@);
            }
        }
    }

    /// The style matrix of the voice at `i`.
    pub fn style_vectors_at(&self, i: usize) -> (r: &V)
        requires
            i < self.models@.len(),
        ensures
            *r == self.models@[i as int].style_vectors,
    {
        &self.models[i].style_vectors
    }

    /// The weight bytes of the voice at `i`.
    pub fn model_bytes_at(&self, i: usize) -> (r: &Vec<u8>)
        requires
            i < self.models@.len(),
        ensures
            *r == self.models@[i as int].bytes,
    {
        &self.models[i].bytes
    }

    /// The live session of the voice at `i`, if it has one.
    pub fn session_at(&self, i: usize) -> (r: Option<&S>)
        requires
            i < self.models@.len(),
        ensures
            r is Some <==> is_hot(self.models@[i as int]),
            r is Some ==> *r->0 == self.models@[i as int].session->0,
    {
        match &self.models[i].session {
            Some(s) => Some(s),
            None => None,
        }
    }
}

} // verus!
