//! Which authority this process holds over branches and system namespaces.
//!
//! A scope is unknown, held by a permit, or fenced. Installing a permit lifts the fence; fencing
//! drops the permit.
use crate::bytes::{bytes_lt, lemma_lex_irreflexive, lemma_lex_total, lemma_lex_transitive, lex_lt};
use crate::error::{fault, outcome, Error, ErrorCode, Fault};
use crate::model::{AuthorityScope, AuthorityStamp, ScopeView};
use crate::repository::Repository;
use vstd::prelude::*;
use vstd::utf8::encode_utf8;

verus! {

/// Authority over one scope, good until it expires.
#[derive(Clone, Debug)]
pub struct AuthorityPermit {
    pub stamp: AuthorityStamp,
    pub expires_at_millis: u64,
}

impl AuthorityPermit {
    /// A copy of the permit.
    pub fn copied(&self) -> (r: Self)
        ensures
            r == *self,
    {
        AuthorityPermit { stamp: self.stamp.copied(), expires_at_millis: self.expires_at_millis }
    }
}

/// Branches before system namespaces, each by the bytes of their names.
pub open spec fn scope_lt(a: ScopeView, b: ScopeView) -> bool {
    match (a, b) {
        (ScopeView::Branch { name: x }, ScopeView::Branch { name: y }) => lex_lt(
            encode_utf8(x),
            encode_utf8(y),
        ),
        (ScopeView::Branch { .. }, ScopeView::System { .. }) => true,
        (ScopeView::System { .. }, ScopeView::Branch { .. }) => false,
        (ScopeView::System { namespace: x }, ScopeView::System { namespace: y }) => lex_lt(
            encode_utf8(x),
            encode_utf8(y),
        ),
    }
}

proof fn lemma_scope_order(a: ScopeView, b: ScopeView, c: ScopeView)
    ensures
        !scope_lt(a, a),
        scope_lt(a, b) && scope_lt(b, c) ==> scope_lt(a, c),
        scope_lt(a, b) || a == b || scope_lt(b, a),
{
    let bytes = |s: ScopeView|
        match s {
            ScopeView::Branch { name } => encode_utf8(name),
            ScopeView::System { namespace } => encode_utf8(namespace),
        };
    let chars = |s: ScopeView|
        match s {
            ScopeView::Branch { name } => name,
            ScopeView::System { namespace } => namespace,
        };
    lemma_lex_irreflexive(bytes(a));
    lemma_lex_total(bytes(a), bytes(b));
    if lex_lt(bytes(a), bytes(b)) && lex_lt(bytes(b), bytes(c)) {
        lemma_lex_transitive(bytes(a), bytes(b), bytes(c));
    }
    if bytes(a) == bytes(b) {
        vstd::utf8::encode_utf8_decode_utf8(chars(a));
        vstd::utf8::encode_utf8_decode_utf8(chars(b));
        assert(chars(a) == chars(b));
    }
}

fn scope_is_before(a: &AuthorityScope, b: &AuthorityScope) -> (r: bool)
    ensures
        r == scope_lt(a@, b@),
{
    match (a, b) {
        (AuthorityScope::Branch { name: x }, AuthorityScope::Branch { name: y }) => bytes_lt(
            x.as_str().as_bytes(),
            y.as_str().as_bytes(),
        ),
        (AuthorityScope::Branch { .. }, AuthorityScope::System { .. }) => true,
        (AuthorityScope::System { .. }, AuthorityScope::Branch { .. }) => false,
        (
            AuthorityScope::System { namespace: x },
            AuthorityScope::System { namespace: y },
        ) => bytes_lt(x.as_str().as_bytes(), y.as_str().as_bytes()),
    }
}

/// The permits and fences of this process.
#[derive(Debug)]
pub struct AuthorityRegistry {
    permits: Vec<AuthorityPermit>,
    fenced: Vec<AuthorityScope>,
}

/// What is known of every scope.
#[verifier::ext_equal]
pub struct RegistryView {
    pub permits: Map<ScopeView, AuthorityPermit>,
    pub fenced: Set<ScopeView>,
}

/// The permits of a list by their scopes; the last of a scope counts.
spec fn permit_map(permits: Seq<AuthorityPermit>) -> Map<ScopeView, AuthorityPermit>
    decreases permits.len(),
{
    if permits.len() == 0 {
        Map::empty()
    } else {
        permit_map(permits.drop_last()).insert(permits.last().stamp.scope@, permits.last())
    }
}

/// The scopes of a list.
spec fn scope_set(fenced: Seq<AuthorityScope>) -> Set<ScopeView> {
    Set::new(|s: ScopeView| exists|i: int| 0 <= i < fenced.len() && #[trigger] fenced[i]@ == s)
}

spec fn distinct_scopes(permits: Seq<AuthorityPermit>) -> bool {
    forall|i: int, j: int|
        0 <= i < j < permits.len() ==> #[trigger] permits[i].stamp.scope@
            != #[trigger] permits[j].stamp.scope@
}

spec fn sorted_scopes(fenced: Seq<AuthorityScope>) -> bool {
    forall|i: int, j: int|
        0 <= i < j < fenced.len() ==> scope_lt(#[trigger] fenced[i]@, #[trigger] fenced[j]@)
}

proof fn lemma_permit_map(permits: Seq<AuthorityPermit>)
    requires
        distinct_scopes(permits),
    ensures
        forall|i: int|
            0 <= i < permits.len() ==> permit_map(permits).contains_pair(
                (#[trigger] permits[i]).stamp.scope@,
                permits[i],
            ),
        forall|s: ScopeView| #[trigger]
            permit_map(permits).contains_key(s) ==> exists|i: int|
                0 <= i < permits.len() && #[trigger] permits[i].stamp.scope@ == s,
    decreases permits.len(),
{
    if permits.len() > 0 {
        let head = permits.drop_last();
        assert(distinct_scopes(head)) by {
            assert forall|i: int, j: int| 0 <= i < j < head.len() implies #[trigger] head[i].stamp.scope@
                != #[trigger] head[j].stamp.scope@ by {
                assert(head[i] == permits[i] && head[j] == permits[j]);
            }
        }
        lemma_permit_map(head);
        let n = permits.len() - 1;
        assert forall|i: int| 0 <= i < permits.len() implies permit_map(permits).contains_pair(
            (#[trigger] permits[i]).stamp.scope@,
            permits[i],
        ) by {
            if i < n {
                assert(head[i] == permits[i]);
                assert(permits[i].stamp.scope@ != permits[n].stamp.scope@);
            }
        }
        assert forall|s: ScopeView| #[trigger] permit_map(permits).contains_key(s) implies exists|
            i: int,
        |
            0 <= i < permits.len() && #[trigger] permits[i].stamp.scope@ == s by {
            if s == permits.last().stamp.scope@ {
                assert(permits[n].stamp.scope@ == s);
            } else {
                assert(permit_map(head).contains_key(s));
                let i = choose|i: int|
                    0 <= i < head.len() && #[trigger] head[i].stamp.scope@ == s;
                assert(permits[i].stamp.scope@ == s);
            }
        }
    }
}

/// Dropping one permit of a list drops its scope and no other.
proof fn lemma_permit_map_remove(permits: Seq<AuthorityPermit>, at: int)
    requires
        distinct_scopes(permits),
        0 <= at < permits.len(),
    ensures
        distinct_scopes(permits.remove(at)),
        permit_map(permits.remove(at)) == permit_map(permits).remove(permits[at].stamp.scope@),
{
    let fewer = permits.remove(at);
    assert forall|i: int, j: int| 0 <= i < j < fewer.len() implies #[trigger] fewer[i].stamp.scope@
        != #[trigger] fewer[j].stamp.scope@ by {
        let a = if i < at {
            i
        } else {
            i + 1
        };
        let b = if j < at {
            j
        } else {
            j + 1
        };
        assert(fewer[i] == permits[a] && fewer[j] == permits[b]);
    }
    lemma_permit_map(permits);
    lemma_permit_map(fewer);
    let gone = permits[at].stamp.scope@;
    let left = permit_map(fewer);
    let right = permit_map(permits).remove(gone);
    assert forall|s: ScopeView|
        #![trigger left.contains_key(s)]
        #![trigger right.contains_key(s)]
        left.contains_key(s) == right.contains_key(s) && (left.contains_key(s) ==> left[s]
            == right[s]) by {
        if left.contains_key(s) {
            let i = choose|i: int| 0 <= i < fewer.len() && #[trigger] fewer[i].stamp.scope@ == s;
            let a = if i < at {
                i
            } else {
                i + 1
            };
            assert(fewer[i] == permits[a]);
            assert(permit_map(permits).contains_pair(permits[a].stamp.scope@, permits[a]));
        }
        if right.contains_key(s) {
            let a = choose|a: int| 0 <= a < permits.len() && #[trigger] permits[a].stamp.scope@ == s;
            assert(a != at);
            let i = if a < at {
                a
            } else {
                a - 1
            };
            assert(fewer[i] == permits[a]);
            assert(left.contains_pair(fewer[i].stamp.scope@, fewer[i]));
        }
    }
    assert(left =~= right);
}

impl View for AuthorityRegistry {
    type V = RegistryView;

    closed spec fn view(&self) -> RegistryView {
        RegistryView { permits: permit_map(self.permits@), fenced: scope_set(self.fenced@) }
    }
}

impl AuthorityRegistry {
    /// No scope is listed twice, each permit is filed under its own scope, and no scope is both held
    /// and fenced.
    pub closed spec fn wf(&self) -> bool {
        &&& distinct_scopes(self.permits@)
        &&& sorted_scopes(self.fenced@)
        &&& forall|s: ScopeView|
            self@.permits.contains_key(s) ==> !#[trigger] self@.fenced.contains(s)
    }

    /// Every permit that is held, one for each scope.
    pub fn held_permits(&self) -> (r: Vec<AuthorityPermit>)
        requires
            self.wf(),
        ensures
            forall|i: int, j: int|
                0 <= i < j < r@.len() ==> (#[trigger] r@[i]).stamp.scope@ != (
                #[trigger] r@[j]).stamp.scope@,
            forall|i: int|
                0 <= i < r@.len() ==> self@.permits.contains_pair(
                    (#[trigger] r@[i]).stamp.scope@,
                    r@[i],
                ),
            forall|s: ScopeView| #[trigger]
                self@.permits.contains_key(s) ==> exists|i: int|
                    0 <= i < r@.len() && (#[trigger] r@[i]).stamp.scope@ == s,
    {
        let mut held: Vec<AuthorityPermit> = Vec::new();
        let mut i: usize = 0;
        while i < self.permits.len()
            invariant
                i <= self.permits@.len(),
                held@ == self.permits@.take(i as int),
            decreases self.permits.len() - i,
        {
            held.push(self.permits[i].copied());
            assert(held@ =~= self.permits@.take(i + 1));
            i += 1;
        }
        assert(held@ =~= self.permits@);
        proof {
            lemma_permit_map(self.permits@);
        }
        held
    }

    /// Nothing is held and nothing is fenced.
    pub fn new() -> (r: Self)
        ensures
            r.wf(),
            r@.permits == Map::<ScopeView, AuthorityPermit>::empty(),
            r@.fenced == Set::<ScopeView>::empty(),
    {
        let r = AuthorityRegistry { permits: Vec::new(), fenced: Vec::new() };
        assert(r@.fenced =~= Set::<ScopeView>::empty());
        r
    }

    /// The permit that holds a scope.
    pub fn permit(&self, scope: &AuthorityScope) -> (r: Option<AuthorityPermit>)
        requires
            self.wf(),
        ensures
            r == if self@.permits.contains_key(scope@) {
                Some(self@.permits[scope@])
            } else {
                None
            },
    {
        proof {
            lemma_permit_map(self.permits@);
        }
        let mut i: usize = 0;
        while i < self.permits.len()
            invariant
                i <= self.permits.len(),
                forall|j: int| 0 <= j < i ==> #[trigger] self.permits@[j].stamp.scope@ != scope@,
                forall|j: int|
                    0 <= j < self.permits@.len() ==> permit_map(self.permits@).contains_pair(
                        (#[trigger] self.permits@[j]).stamp.scope@,
                        self.permits@[j],
                    ),
            decreases self.permits.len() - i,
        {
            if self.permits[i].stamp.scope.same(scope) {
                return Some(self.permits[i].copied());
            }
            i += 1;
        }
        None
    }

    /// Whether a scope is fenced.
    pub fn is_scope_fenced(&self, scope: &AuthorityScope) -> (r: bool)
        requires
            self.wf(),
        ensures
            r == self@.fenced.contains(scope@),
    {
        let mut i: usize = 0;
        while i < self.fenced.len()
            invariant
                i <= self.fenced.len(),
                forall|j: int| 0 <= j < i ==> #[trigger] self.fenced@[j]@ != scope@,
            decreases self.fenced.len() - i,
        {
            if self.fenced[i].same(scope) {
                assert(self.fenced@[i as int]@ == scope@);
                return true;
            }
            i += 1;
        }
        false
    }

    fn drop_permit(&mut self, scope: &AuthorityScope)
        requires
            old(self).wf(),
        ensures
            final(self).wf(),
            final(self)@.permits == old(self)@.permits.remove(scope@),
            final(self)@.fenced == old(self)@.fenced,
    {
        proof {
            lemma_permit_map(self.permits@);
        }
        let mut i: usize = 0;
        while i < self.permits.len()
            invariant
                i <= self.permits.len(),
                *self == *old(self),
                old(self).wf(),
                forall|j: int| 0 <= j < i ==> #[trigger] self.permits@[j].stamp.scope@ != scope@,
            decreases self.permits.len() - i,
        {
            if self.permits[i].stamp.scope.same(scope) {
                proof {
                    lemma_permit_map_remove(self.permits@, i as int);
                }
                let gone = self.permits.remove(i);
                proof {
                    assert forall|s: ScopeView| self@.permits.contains_key(s) implies !#[trigger] self@.fenced.contains(
                        s,
                    ) by {
                        assert(old(self)@.permits.contains_key(s));
                        assert(!old(self)@.fenced.contains(s));
                    }
                }
                return;
            }
            i += 1;
        }
        proof {
            lemma_permit_map(self.permits@);
            assert(self@.permits.remove(scope@) =~= self@.permits);
        }
    }

    fn drop_fence(&mut self, scope: &AuthorityScope)
        requires
            old(self).wf(),
        ensures
            final(self).wf(),
            final(self)@.permits == old(self)@.permits,
            final(self)@.fenced == old(self)@.fenced.remove(scope@),
    {
        let mut i: usize = 0;
        while i < self.fenced.len()
            invariant
                i <= self.fenced.len(),
                *self == *old(self),
                old(self).wf(),
                forall|j: int| 0 <= j < i ==> #[trigger] self.fenced@[j]@ != scope@,
            decreases self.fenced.len() - i,
        {
            if self.fenced[i].same(scope) {
                let ghost before = self.fenced@;
                let gone = self.fenced.remove(i);
                proof {
                    let after = self.fenced@;
                    assert forall|a: int, b: int| 0 <= a < b < after.len() implies scope_lt(
                        #[trigger] after[a]@,
                        #[trigger] after[b]@,
                    ) by {
                        let x = if a < i {
                            a
                        } else {
                            a + 1
                        };
                        let y = if b < i {
                            b
                        } else {
                            b + 1
                        };
                        assert(after[a] == before[x] && after[b] == before[y]);
                        assert(scope_lt(before[x]@, before[y]@));
                    }
                    assert forall|s: ScopeView|
                        scope_set(after).contains(s) <==> scope_set(before).remove(scope@).contains(
                            s,
                        ) by {
                        if scope_set(after).contains(s) {
                            let a = choose|a: int| 0 <= a < after.len() && #[trigger] after[a]@ == s;
                            let x = if a < i {
                                a
                            } else {
                                a + 1
                            };
                            assert(before[x]@ == s);
                            lemma_scope_order(s, scope@, s);
                            if x < i {
                                assert(scope_lt(before[x]@, before[i as int]@));
                            } else {
                                assert(scope_lt(before[i as int]@, before[x]@));
                            }
                            lemma_scope_order(scope@, s, s);
                        }
                        if scope_set(before).remove(scope@).contains(s) {
                            let x = choose|x: int| 0 <= x < before.len() && #[trigger] before[x]@ == s;
                            let a = if x < i {
                                x
                            } else {
                                x - 1
                            };
                            assert(after[a]@ == s);
                        }
                    }
                    assert(scope_set(after) =~= scope_set(before).remove(scope@));
                    assert forall|s: ScopeView| self@.permits.contains_key(s) implies !#[trigger] self@.fenced.contains(
                        s,
                    ) by {
                        assert(old(self)@.permits.contains_key(s));
                        assert(!old(self)@.fenced.contains(s));
                    }
                }
                return;
            }
            i += 1;
        }
        assert(scope_set(self.fenced@).remove(scope@) =~= scope_set(self.fenced@));
    }

    /// Holds the permit's scope with it and lifts the scope's fence.
    pub fn install_permit(&mut self, permit: AuthorityPermit)
        requires
            old(self).wf(),
        ensures
            final(self).wf(),
            final(self)@.permits == old(self)@.permits.insert(permit.stamp.scope@, permit),
            final(self)@.fenced == old(self)@.fenced.remove(permit.stamp.scope@),
    {
        let scope = permit.stamp.scope.copied();
        self.drop_permit(&scope);
        self.drop_fence(&scope);
        let ghost before = self.permits@;
        proof {
            lemma_permit_map(before);
        }
        self.permits.push(permit);
        proof {
            let after = self.permits@;
            assert(after.drop_last() =~= before);
            assert(!permit_map(before).contains_key(scope@));
            assert forall|i: int, j: int| 0 <= i < j < after.len() implies #[trigger] after[i].stamp.scope@
                != #[trigger] after[j].stamp.scope@ by {
                if j == before.len() {
                    assert(permit_map(before).contains_pair(before[i].stamp.scope@, before[i]));
                } else {
                    assert(before[i].stamp.scope@ != before[j].stamp.scope@);
                }
            }
            assert(self@.permits =~= old(self)@.permits.insert(permit.stamp.scope@, permit));
        }
    }

    /// Fences a scope and drops its permit.
    pub fn fence_scope(&mut self, scope: &AuthorityScope)
        requires
            old(self).wf(),
        ensures
            final(self).wf(),
            final(self)@.permits == old(self)@.permits.remove(scope@),
            final(self)@.fenced == old(self)@.fenced.insert(scope@),
    {
        self.drop_permit(scope);
        let ghost middle = self@;
        let ghost permits = self.permits@;
        let ghost before = self.fenced@;
        let mut i: usize = 0;
        while i < self.fenced.len() && scope_is_before(&self.fenced[i], scope)
            invariant
                i <= self.fenced.len(),
                self.fenced@ == before,
                self.permits@ == permits,
                forall|j: int| 0 <= j < i ==> scope_lt(#[trigger] before[j]@, scope@),
            decreases self.fenced.len() - i,
        {
            i += 1;
        }
        if i < self.fenced.len() && self.fenced[i].same(scope) {
            assert(before[i as int]@ == scope@);
            assert(scope_set(before).insert(scope@) =~= scope_set(before));
            return;
        }
        self.fenced.insert(i, scope.copied());
        proof {
            let after = self.fenced@;
            assert forall|j: int| i <= j < before.len() implies scope_lt(
                scope@,
                #[trigger] before[j]@,
            ) by {
                lemma_scope_order(before[i as int]@, scope@, before[j]@);
                if j > i {
                    assert(scope_lt(before[i as int]@, before[j]@));
                    lemma_scope_order(scope@, before[i as int]@, before[j]@);
                }
            }
            assert forall|a: int, b: int| 0 <= a < b < after.len() implies scope_lt(
                #[trigger] after[a]@,
                #[trigger] after[b]@,
            ) by {
                let x = if a < i {
                    a
                } else {
                    a - 1
                };
                let y = if b < i {
                    b
                } else {
                    b - 1
                };
                if a != i && b != i {
                    assert(after[a] == before[x] && after[b] == before[y]);
                } else if a == i {
                    assert(after[b] == before[y]);
                } else {
                    assert(after[a] == before[x]);
                }
            }
            assert forall|s: ScopeView|
                scope_set(after).contains(s) <==> scope_set(before).insert(scope@).contains(s) by {
                if scope_set(after).contains(s) {
                    let a = choose|a: int| 0 <= a < after.len() && #[trigger] after[a]@ == s;
                    if a < i {
                        assert(before[a]@ == s);
                    } else if a > i {
                        assert(before[a - 1]@ == s);
                    }
                }
                if scope_set(before).contains(s) {
                    let x = choose|x: int| 0 <= x < before.len() && #[trigger] before[x]@ == s;
                    if x < i {
                        assert(after[x]@ == s);
                    } else {
                        assert(after[x + 1]@ == s);
                    }
                } else if s == scope@ {
                    assert(after[i as int]@ == s);
                }
            }
            assert(scope_set(after) =~= scope_set(before).insert(scope@));
        }
    }

    /// The names of the fenced branches, in the order of their bytes.
    pub fn fenced_branches(&self) -> (r: Vec<String>)
        requires
            self.wf(),
        ensures
            forall|i: int, j: int|
                0 <= i < j < r@.len() ==> lex_lt(
                    encode_utf8(#[trigger] r@[i]@),
                    encode_utf8(#[trigger] r@[j]@),
                ),
            forall|i: int|
                0 <= i < r@.len() ==> self@.fenced.contains(
                    ScopeView::Branch { name: #[trigger] r@[i]@ },
                ),
            forall|name: Seq<char>| #[trigger]
                self@.fenced.contains(ScopeView::Branch { name }) ==> exists|i: int|
                    0 <= i < r@.len() && #[trigger] r@[i]@ == name,
    {
        let mut out: Vec<String> = Vec::new();
        let mut i: usize = 0;
        while i < self.fenced.len()
            invariant
                self.wf(),
                i <= self.fenced.len(),
                forall|a: int, b: int|
                    0 <= a < b < out@.len() ==> lex_lt(
                        encode_utf8(#[trigger] out@[a]@),
                        encode_utf8(#[trigger] out@[b]@),
                    ),
                forall|a: int|
                    0 <= a < out@.len() ==> exists|j: int|
                        0 <= j < i && #[trigger] self.fenced@[j]@ == (ScopeView::Branch {
                            name: #[trigger] out@[a]@,
                        }),
                forall|j: int|
                    0 <= j < i ==> (#[trigger] self.fenced@[j]@ matches ScopeView::Branch {
                        name,
                    } ==> exists|a: int| 0 <= a < out@.len() && #[trigger] out@[a]@ == name),
            decreases self.fenced.len() - i,
        {
            let ghost before = out@;
            if let AuthorityScope::Branch { name } = &self.fenced[i] {
                out.push(name.clone());
                proof {
                    let n = before.len() as int;
                    assert forall|a: int, b: int| 0 <= a < b < out@.len() implies lex_lt(
                        encode_utf8(#[trigger] out@[a]@),
                        encode_utf8(#[trigger] out@[b]@),
                    ) by {
                        assert(out@[a] == before[a]);
                        if b == n {
                            let j = choose|j: int|
                                0 <= j < i && #[trigger] self.fenced@[j]@ == (ScopeView::Branch {
                                    name: before[a]@,
                                });
                            assert(scope_lt(self.fenced@[j]@, self.fenced@[i as int]@));
                        } else {
                            assert(out@[b] == before[b]);
                        }
                    }
                    assert forall|a: int| 0 <= a < out@.len() implies exists|j: int|
                        0 <= j < i + 1 && #[trigger] self.fenced@[j]@ == (ScopeView::Branch {
                            name: #[trigger] out@[a]@,
                        }) by {
                        if a == n {
                            assert(self.fenced@[i as int]@ == (ScopeView::Branch { name: out@[a]@ }));
                        } else {
                            assert(out@[a] == before[a]);
                            let j = choose|j: int|
                                0 <= j < i && #[trigger] self.fenced@[j]@ == (ScopeView::Branch {
                                    name: before[a]@,
                                });
                            assert(self.fenced@[j]@ == (ScopeView::Branch { name: out@[a]@ }));
                        }
                    }
                    assert forall|j: int| 0 <= j < i + 1 implies (
                    #[trigger] self.fenced@[j]@ matches ScopeView::Branch { name } ==> exists|
                        a: int,
                    |
                        0 <= a < out@.len() && #[trigger] out@[a]@ == name) by {
                        if self.fenced@[j]@ is Branch {
                            if j == i {
                                assert(out@[n]@ == self.fenced@[j]@->name);
                            } else {
                                let a = choose|a: int|
                                    0 <= a < before.len() && #[trigger] before[a]@
                                        == self.fenced@[j]@->name;
                                assert(out@[a]@ == self.fenced@[j]@->name);
                            }
                        }
                    }
                }
            }
            i += 1;
        }
        proof {
            assert forall|a: int| 0 <= a < out@.len() implies self@.fenced.contains(
                ScopeView::Branch { name: #[trigger] out@[a]@ },
            ) by {
                let j = choose|j: int|
                    0 <= j < i && #[trigger] self.fenced@[j]@ == (ScopeView::Branch {
                        name: out@[a]@,
                    });
            }
            assert forall|name: Seq<char>| #[trigger]
                self@.fenced.contains(ScopeView::Branch { name }) implies exists|a: int|
                0 <= a < out@.len() && #[trigger] out@[a]@ == name by {
                let j = choose|j: int|
                    0 <= j < self.fenced@.len() && #[trigger] self.fenced@[j]@
                        == (ScopeView::Branch { name });
                assert(self.fenced@[j]@ is Branch);
            }
        }
        out
    }
}

/// What must happen before a permit may be used.
#[derive(Debug)]
pub enum PermitStep {
    /// The permit is at hand; ask the authority whether it still holds.
    Validate(AuthorityPermit),
    /// No permit is at hand; ask the authority for one.
    Acquire,
}

/// The error of work under a fence.
pub open spec fn fenced_fault() -> Fault {
    fault(
        ErrorCode::PreconditionFailed,
        "repository branch authority is fenced in this repository instance",
    )
}

/// The error of a permit that ran out.
pub open spec fn expired_fault() -> Fault {
    fault(
        ErrorCode::PreconditionFailed,
        "repository branch authority expired; explicit takeover is required",
    )
}

/// What a registry becomes when a scope is fenced.
pub open spec fn with_fence(registry: RegistryView, scope: ScopeView) -> RegistryView {
    RegistryView {
        permits: registry.permits.remove(scope),
        fenced: registry.fenced.insert(scope),
    }
}

/// What a registry becomes when a permit is installed.
pub open spec fn with_permit(registry: RegistryView, permit: AuthorityPermit) -> RegistryView {
    RegistryView {
        permits: registry.permits.insert(permit.stamp.scope@, permit),
        fenced: registry.fenced.remove(permit.stamp.scope@),
    }
}

/// Whether two repositories differ in nothing but their authority.
pub open spec fn same_but_authority(a: Repository, b: Repository) -> bool {
    a == (Repository { authority: a.authority, ..b })
}

impl Repository {
    /// Begins work under a scope: finds the permit to validate, or says that one must be acquired.
    /// A permit that ran out fences its scope.
    pub fn active_scope_permit(&mut self, scope: &AuthorityScope, now: u64) -> (r: Result<
        PermitStep,
        Error,
    >)
        requires
            old(self).authority.wf(),
        ensures
            final(self).authority.wf(),
            same_but_authority(*final(self), *old(self)),
            ({
                let before = old(self).authority@;
                let after = final(self).authority@;
                if !old(self).writable {
                    outcome(r) == Err::<PermitStep, Fault>(
                        fault(ErrorCode::PreconditionFailed, "repository is read-only"),
                    ) && after == before
                } else if before.fenced.contains(scope@) {
                    outcome(r) == Err::<PermitStep, Fault>(fenced_fault()) && after == before
                } else if !before.permits.contains_key(scope@) {
                    r == Ok::<PermitStep, Error>(PermitStep::Acquire) && after == before
                } else if before.permits[scope@].expires_at_millis > now {
                    r == Ok::<PermitStep, Error>(PermitStep::Validate(before.permits[scope@]))
                        && after == before
                } else {
                    outcome(r) == Err::<PermitStep, Fault>(expired_fault()) && after == with_fence(
                        before,
                        scope@,
                    )
                }
            }),
    {
        if let Err(error) = self.require_writable() {
            return Err(error);
        }
        if self.authority.is_scope_fenced(scope) {
            return Err(
                Error::new(
                    ErrorCode::PreconditionFailed,
                    "repository branch authority is fenced in this repository instance",
                ),
            );
        }
        match self.authority.permit(scope) {
            None => Ok(PermitStep::Acquire),
            Some(permit) => {
                if permit.expires_at_millis > now {
                    return Ok(PermitStep::Validate(permit));
                }
                self.authority.fence_scope(scope);
                Err(
                    Error::new(
                        ErrorCode::PreconditionFailed,
                        "repository branch authority expired; explicit takeover is required",
                    ),
                )
            },
        }
    }

    /// Takes what the authority answered to a request for a permit. A refusal fences the scope.
    pub fn permit_acquired(
        &mut self,
        scope: &AuthorityScope,
        acquired: Result<AuthorityPermit, Error>,
    ) -> (r: Result<PermitStep, Error>)
        requires
            old(self).authority.wf(),
        ensures
            final(self).authority.wf(),
            same_but_authority(*final(self), *old(self)),
            match acquired {
                Ok(permit) => r == Ok::<PermitStep, Error>(PermitStep::Validate(permit))
                    && final(self).authority@ == with_permit(old(self).authority@, permit),
                Err(error) => r == Err::<PermitStep, Error>(error) && final(self).authority@
                    == with_fence(old(self).authority@, scope@),
            },
    {
        match acquired {
            Ok(permit) => {
                self.authority.install_permit(permit.copied());
                Ok(PermitStep::Validate(permit))
            },
            Err(error) => {
                self.authority.fence_scope(scope);
                Err(error)
            },
        }
    }

    /// Takes what the authority answered when a permit was to be validated. A refusal fences the
    /// scope.
    pub fn permit_validated(
        &mut self,
        scope: &AuthorityScope,
        permit: AuthorityPermit,
        validation: Result<(), Error>,
    ) -> (r: Result<AuthorityPermit, Error>)
        requires
            old(self).authority.wf(),
        ensures
            final(self).authority.wf(),
            same_but_authority(*final(self), *old(self)),
            match validation {
                Ok(_) => r == Ok::<AuthorityPermit, Error>(permit) && final(self).authority@ == old(
                    self,
                ).authority@,
                Err(error) => r == Err::<AuthorityPermit, Error>(error) && final(self).authority@
                    == with_fence(old(self).authority@, scope@),
            },
    {
        match validation {
            Ok(_) => Ok(permit),
            Err(error) => {
                self.authority.fence_scope(scope);
                Err(error)
            },
        }
    }

    /// Fences a branch and drops its permit.
    pub fn fence_branch(&mut self, branch: &str)
        requires
            old(self).authority.wf(),
        ensures
            final(self).authority.wf(),
            same_but_authority(*final(self), *old(self)),
            final(self).authority@ == with_fence(
                old(self).authority@,
                ScopeView::Branch { name: branch@ },
            ),
    {
        self.authority.fence_scope(&AuthorityScope::Branch { name: branch.to_owned() });
    }

    /// The names of the fenced branches, in the order of their bytes.
    pub fn fenced_branches(&self) -> (r: Vec<String>)
        requires
            self.authority.wf(),
        ensures
            forall|i: int, j: int|
                0 <= i < j < r@.len() ==> lex_lt(
                    encode_utf8(#[trigger] r@[i]@),
                    encode_utf8(#[trigger] r@[j]@),
                ),
            forall|i: int|
                0 <= i < r@.len() ==> self.authority@.fenced.contains(
                    ScopeView::Branch { name: #[trigger] r@[i]@ },
                ),
            forall|name: Seq<char>| #[trigger]
                self.authority@.fenced.contains(ScopeView::Branch { name }) ==> exists|i: int|
                    0 <= i < r@.len() && #[trigger] r@[i]@ == name,
    {
        self.authority.fenced_branches()
    }
}

/// A scope that was just fenced has no permit, and one that just got a permit is not fenced; neither
/// touches another scope.
pub proof fn law_fences_and_permits_exclude_each_other(
    registry: RegistryView,
    permit: AuthorityPermit,
    scope: ScopeView,
    other: ScopeView,
)
    requires
        other != scope,
        other != permit.stamp.scope@,
    ensures
        with_fence(registry, scope).fenced.contains(scope),
        !with_fence(registry, scope).permits.contains_key(scope),
        with_fence(registry, scope).fenced.contains(other) == registry.fenced.contains(other),
        with_fence(registry, scope).permits.contains_key(other) == registry.permits.contains_key(
            other,
        ),
        with_permit(registry, permit).permits.contains_pair(permit.stamp.scope@, permit),
        !with_permit(registry, permit).fenced.contains(permit.stamp.scope@),
        with_permit(registry, permit).fenced.contains(other) == registry.fenced.contains(other),
        with_permit(registry, permit).permits.contains_key(other)
            == registry.permits.contains_key(other),
{
}

/// A fence takes away the permit of its scope and no other; a permit is found under its scope just as it was given,
/// takes the place of the one before, and leaves every other as it was.
pub proof fn law_permits_of_other_scopes_stay(
    registry: RegistryView,
    permit: AuthorityPermit,
    scope: ScopeView,
    other: ScopeView,
)
    ensures
        other != scope ==> with_fence(registry, scope).permits[other] == registry.permits[other],
        other != permit.stamp.scope@ ==> with_permit(registry, permit).permits[other]
            == registry.permits[other],
        with_permit(registry, permit).permits[permit.stamp.scope@] == permit,
        with_fence(with_permit(registry, permit), permit.stamp.scope@).permits.contains_key(
            permit.stamp.scope@,
        ) == false,
        with_permit(with_fence(registry, permit.stamp.scope@), permit) == with_permit(registry, permit),
{
    assert(with_permit(with_fence(registry, permit.stamp.scope@), permit).permits =~= with_permit(
        registry,
        permit,
    ).permits);
    assert(with_permit(with_fence(registry, permit.stamp.scope@), permit).fenced =~= with_permit(
        registry,
        permit,
    ).fenced);
}

/// Whatever authority does to a repository, it leaves its settings, its format, its right to write and its collection as
/// they were.
pub proof fn law_authority_leaves_the_rest_alone(a: Repository, b: Repository)
    requires
        same_but_authority(a, b),
    ensures
        a.options == b.options,
        a.format == b.format,
        a.writable == b.writable,
        a.active_gc_epoch == b.active_gc_epoch,
        a.gc_dirty_sequence == b.gc_dirty_sequence,
{
}

/// Scopes are in order: of two different ones exactly one comes first, branches before the others.
pub proof fn law_scopes_are_in_order(a: Seq<char>, b: Seq<char>)
    ensures
        scope_lt(ScopeView::Branch { name: a }, ScopeView::System { namespace: b }),
        !scope_lt(ScopeView::System { namespace: b }, ScopeView::Branch { name: a }),
        scope_lt(ScopeView::Branch { name: a }, ScopeView::Branch { name: b }) <==> lex_lt(
            encode_utf8(a),
            encode_utf8(b),
        ),
        scope_lt(ScopeView::System { namespace: a }, ScopeView::System { namespace: b }) <==> lex_lt(
            encode_utf8(a),
            encode_utf8(b),
        ),
{
}

} // verus!
