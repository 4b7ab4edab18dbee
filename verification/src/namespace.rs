//! Namespaces: the isolation unit for configs and services, with the
//! token-authorization gate for client reads and the guard that keeps the
//! reserved `public` namespace from being deleted.

use vstd::prelude::*;
use vstd::string::StringExecFns;

use crate::text::str_eq;

verus! {

/// A namespace row.
pub struct Namespace {
    pub id: String,
    pub name: String,
    pub description: Option<String>,
    pub is_auth: bool,
    pub auth_token: Option<String>,
    pub create_time: i64,
    pub update_time: i64,
}

/// Mathematical model of a namespace.
#[verifier::ext_equal]
pub ghost struct NamespaceModel {
    pub id: Seq<char>,
    pub name: Seq<char>,
    pub description: Option<Seq<char>>,
    pub is_auth: bool,
    pub auth_token: Option<Seq<char>>,
    pub create_time: int,
    pub update_time: int,
}

/// The view of an optional string.
pub open spec fn opt_str_view(s: Option<String>) -> Option<Seq<char>> {
    match s {
        Some(x) => Some(x@),
        None => None,
    }
}

impl View for Namespace {
    type V = NamespaceModel;

    open spec fn view(&self) -> NamespaceModel {
        NamespaceModel {
            id: self.id@,
            name: self.name@,
            description: opt_str_view(self.description),
            is_auth: self.is_auth,
            auth_token: opt_str_view(self.auth_token),
            create_time: self.create_time as int,
            update_time: self.update_time as int,
        }
    }
}

/// Copies an optional string.
pub fn clone_opt_string(s: &Option<String>) -> (r: Option<String>)
    ensures
        opt_str_view(r) == opt_str_view(*s),
{
    match s {
        Some(x) => Some(x.clone()),
        None => None,
    }
}

impl Namespace {
    /// A field-for-field copy.
    pub fn duplicate(&self) -> (r: Namespace)
        ensures
            r@ == self@,
    {
        let r = Namespace {
            id: self.id.clone(),
            name: self.name.clone(),
            description: clone_opt_string(&self.description),
            is_auth: self.is_auth,
            auth_token: clone_opt_string(&self.auth_token),
            create_time: self.create_time,
            update_time: self.update_time,
        };
        proof {
            assert(r@ =~= self@);
        }
        r
    }
}

/// Whether a namespace with the id is present.
pub open spec fn spec_has_namespace(ns: Seq<NamespaceModel>, id: Seq<char>) -> bool {
    exists|j: int| 0 <= j < ns.len() && (#[trigger] ns[j]).id == id
}

/// The namespaces after an upsert: an existing row takes the new name,
/// description, auth flag, token and update time but keeps its creation time;
/// a new row is appended as given.
pub open spec fn spec_upsert_namespace(ns: Seq<NamespaceModel>, n: NamespaceModel) -> Seq<
    NamespaceModel,
> {
    if spec_has_namespace(ns, n.id) {
        ns.map_values(
            |m: NamespaceModel|
                if m.id == n.id {
                    NamespaceModel { create_time: m.create_time, ..n }
                } else {
                    m
                },
        )
    } else {
        ns.push(n)
    }
}

/// The namespaces after a deletion.
pub open spec fn spec_delete_namespace(ns: Seq<NamespaceModel>, id: Seq<char>) -> Seq<
    NamespaceModel,
> {
    ns.filter(|m: NamespaceModel| m.id != id)
}

/// The authorization rule: a read is allowed exactly when the namespace is
/// unknown, does not require auth, or its token equals the presented one.
pub open spec fn spec_auth(ns: Option<NamespaceModel>, token: Option<Seq<char>>) -> bool {
    match ns {
        None => true,
        Some(n) => !n.is_auth || n.auth_token == token,
    }
}

/// Checks a presented token against a namespace.
pub fn auth_namespace(ns: Option<&Namespace>, token: Option<&String>) -> (r: bool)
    ensures
        r == spec_auth(
            match ns {
                Some(n) => Some(n@),
                None => None,
            },
            match token {
                Some(t) => Some(t@),
                None => None,
            },
        ),
{
    match ns {
        None => true,
        Some(n) => {
            if !n.is_auth {
                true
            } else {
                match (&n.auth_token, token) {
                    (Some(a), Some(t)) => str_eq(a.as_str(), t.as_str()),
                    (None, None) => true,
                    _ => false,
                }
            }
        },
    }
}

/// The reserved namespace id that can never be deleted.
pub fn reserved_namespace_id() -> (r: &'static str)
    ensures
        r@ == "public"@,
{
    "public"
}

/// The deletion guard: deleting `public` is rejected before anything is
/// replicated; any other id passes.
pub fn check_delete_namespace(id: &str) -> (r: Result<(), ()>)
    ensures
        r is Err <==> id@ == "public"@,
{
    if str_eq(id, "public") {
        Err(())
    } else {
        Ok(())
    }
}

/// The lazily cached namespace table.
pub struct NamespaceStore {
    pub namespaces: Vec<Namespace>,
}

/// The view of a namespace table.
pub open spec fn namespaces_view(s: Seq<Namespace>) -> Seq<NamespaceModel> {
    s.map_values(|n: Namespace| n@)
}

impl NamespaceStore {
    /// The view of the store.
    pub open spec fn view(&self) -> Seq<NamespaceModel> {
        namespaces_view(self.namespaces@)
    }

    /// An empty store.
    pub fn new() -> (r: NamespaceStore)
        ensures
            r@ == Seq::<NamespaceModel>::empty(),
    {
        let r = NamespaceStore { namespaces: Vec::new() };
        proof {
            assert(r@ =~= Seq::<NamespaceModel>::empty());
        }
        r
    }

    /// The first namespace with the id, if any.
    pub fn get_namespace(&self, id: &str) -> (r: Option<&Namespace>)
        ensures
            match r {
                Some(n) => spec_has_namespace(self@, id@) && n@.id == id@ && (exists|j: int|
                    0 <= j < self@.len() && #[trigger] self@[j] == n@),
                None => !spec_has_namespace(self@, id@),
            },
    {
        let mut i: usize = 0;
        while i < self.namespaces.len()
            invariant
                i <= self.namespaces@.len(),
                forall|j: int| 0 <= j < i ==> (#[trigger] self@[j]).id != id@,
            decreases self.namespaces@.len() - i,
        {
            if str_eq(self.namespaces[i].id.as_str(), id) {
                proof {
                    assert(self@[i as int].id == id@);
                }
                return Some(&self.namespaces[i]);
            }
            i += 1;
        }
        None
    }

    /// Inserts or updates a namespace row.
    pub fn upsert_namespace(&mut self, n: Namespace)
        ensures
            final (self)@ == spec_upsert_namespace(old(self)@, n@),
    {
        let mut found = false;
        let mut i: usize = 0;
        while i < self.namespaces.len()
            invariant
                i <= self.namespaces@.len(),
                old(self).namespaces@ == self.namespaces@,
                found == exists|j: int| 0 <= j < i && (#[trigger] self@[j]).id == n@.id,
            decreases self.namespaces@.len() - i,
        {
            if str_eq(self.namespaces[i].id.as_str(), n.id.as_str()) {
                found = true;
                proof {
                    assert(self@[i as int].id == n@.id);
                }
            }
            i += 1;
        }
        if found {
            let mut kept: Vec<Namespace> = Vec::new();
            let mut j: usize = 0;
            while j < self.namespaces.len()
                invariant
                    j <= self.namespaces@.len(),
                    old(self).namespaces@ == self.namespaces@,
                    kept@.len() == j,
                    forall|g: int|
                        0 <= g < j ==> (#[trigger] kept@[g])@ == if self@[g].id == n@.id {
                            NamespaceModel { create_time: self@[g].create_time, ..n@ }
                        } else {
                            self@[g]
                        },
                decreases self.namespaces@.len() - j,
            {
                if str_eq(self.namespaces[j].id.as_str(), n.id.as_str()) {
                    let mut d = n.duplicate();
                    d.create_time = self.namespaces[j].create_time;
                    proof {
                        assert(d@ =~= (NamespaceModel {
                            create_time: self@[j as int].create_time,
                            ..n@
                        }));
                    }
                    kept.push(d);
                } else {
                    let d = self.namespaces[j].duplicate();
                    kept.push(d);
                }
                j += 1;
            }
            self.namespaces = kept;
            proof {
                assert(final (self)@ =~= spec_upsert_namespace(old(self)@, n@));
            }
        } else {
            self.namespaces.push(n);
            proof {
                assert(final (self)@ =~= old(self)@.push(n@));
            }
        }
    }

    /// Removes a namespace row; the configs under it are removed by the
    /// config store as part of the same applied command.
    pub fn delete_namespace(&mut self, id: &str)
        ensures
            final (self)@ == spec_delete_namespace(old(self)@, id@),
    {
        let ghost p = |m: NamespaceModel| m.id != id@;
        let mut kept: Vec<Namespace> = Vec::new();
        let mut i: usize = 0;
        while i < self.namespaces.len()
            invariant
                i <= self.namespaces@.len(),
                old(self).namespaces@ == self.namespaces@,
                namespaces_view(kept@) == namespaces_view(
                    self.namespaces@.subrange(0, i as int),
                ).filter(p),
                p == (|m: NamespaceModel| m.id != id@),
            decreases self.namespaces@.len() - i,
        {
            proof {
                assert(self.namespaces@.subrange(0, i + 1) =~= self.namespaces@.subrange(
                    0,
                    i as int,
                ).push(self.namespaces@[i as int]));
                assert(namespaces_view(self.namespaces@.subrange(0, i as int).push(
                    self.namespaces@[i as int],
                )) =~= namespaces_view(self.namespaces@.subrange(0, i as int)).push(
                    self.namespaces@[i as int]@,
                ));
                crate::seqs::lemma_filter_push(
                    namespaces_view(self.namespaces@.subrange(0, i as int)),
                    p,
                    self.namespaces@[i as int]@,
                );
            }
            if !str_eq(self.namespaces[i].id.as_str(), id) {
                let d = self.namespaces[i].duplicate();
                kept.push(d);
                proof {
                    assert(namespaces_view(kept@) =~= namespaces_view(
                        self.namespaces@.subrange(0, i + 1),
                    ).filter(p));
                }
            }
            i += 1;
        }
        proof {
            assert(self.namespaces@.subrange(0, self.namespaces@.len() as int)
                =~= self.namespaces@);
        }
        self.namespaces = kept;
    }

    /// Every namespace row.
    pub fn get_all_namespace(&self) -> (r: &Vec<Namespace>)
        ensures
            r == &self.namespaces,
    {
        &self.namespaces
    }
}

/// The token gate, stated of the rule itself: with auth required and token `T` set, a
/// read passes exactly when `T` itself is presented; a missing or different
/// token is rejected.
pub proof fn lemma_namespace_token_gate(n: NamespaceModel, presented: Option<Seq<char>>)
    requires
        n.is_auth,
        n.auth_token is Some,
    ensures
        spec_auth(Some(n), presented) <==> presented == n.auth_token,
{
}


/// Proof that a request passed the namespace gate: granted to console
/// sessions that authenticated with a user token, and otherwise exactly by
/// the token rule.
pub struct NamespaceAuth;

impl NamespaceAuth {
    /// Grants access: a console request with a valid session passes
    /// outright; everyone else passes exactly when the namespace admits the
    /// presented token.
    pub fn grant(
        console_session: bool,
        ns: Option<&Namespace>,
        token: Option<&String>,
    ) -> (r: Result<NamespaceAuth, ()>)
        ensures
            r is Ok <==> console_session || spec_auth(
                match ns {
                    Some(n) => Some(n@),
                    None => None,
                },
                match token {
                    Some(t) => Some(t@),
                    None => None,
                },
            ),
    {
        if console_session {
            Ok(NamespaceAuth)
        } else if auth_namespace(ns, token) {
            Ok(NamespaceAuth)
        } else {
            Err(())
        }
    }
}

} // verus!
