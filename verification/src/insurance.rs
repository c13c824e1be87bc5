//! Insurance policies: creation, external references, archiving and premiums.
//!
//! `Insurance` holds the whole state that the contract keeps in its instance
//! storage.  Each entry point is a method from the state before the call, and
//! the arguments of the call, to the state after it and the call's answer.
//! Authentication of the caller, storage time-to-live and the ledger clock are
//! the host's business: the methods take the (already authenticated) caller and
//! the ledger time `now` as arguments.
//!
//! Where the contract aborts the invocation (an invalid or already used
//! external reference), the method requires that the call is not such a one;
//! `create_policy_refusal`, `set_external_ref_refusal` and `external_ref_refusal`
//! say beforehand which `InsuranceError` an aborted call would carry.
//!
//! `into_parts` and `from_parts` move the state to and from the pieces that contract storage
//! keeps; `from_parts` accepts only pieces that describe a consistent state.
use vstd::prelude::*;
use vstd::utf8::encode_utf8;
use vstd::arithmetic::div_mod::lemma_div_plus_one;
use crate::assoc::{assoc_map, keys_distinct, lemma_assoc_dom, lemma_assoc_value, lemma_assoc_push, lemma_assoc_push_distinct, lemma_assoc_update, lemma_assoc_remove};

verus! {

/// Page size used when a caller asks for a page of size zero.
pub const DEFAULT_PAGE_LIMIT: u32 = 20;

/// Largest page size handed out.
pub const MAX_PAGE_LIMIT: u32 = 50;

/// Longest external reference, in bytes.
pub const MAX_EXTERNAL_REF_LEN: u32 = 128;

/// Time between two premium payments: thirty days, in seconds.
pub const PREMIUM_INTERVAL_SECS: u64 = 2_592_000;

/// Kind of risk a policy covers.
#[derive(Clone, Copy, Debug, PartialEq, Eq, Structural)]
pub enum CoverageType {
    Health,
    Life,
    Property,
    Auto,
}

/// An account on the ledger, identified by its string key.
#[derive(Clone, Debug, PartialEq, Eq)]
pub struct Address {
    pub key: String,
}

impl View for Address {
    type V = Seq<char>;

    open spec fn view(&self) -> Seq<char> {
        self.key@
    }
}

impl Address {
    pub fn new(key: String) -> (a: Address)
        ensures
            a.key == key,
    {
        Address { key }
    }

    /// Whether two addresses are the same account.
    pub fn same_as(&self, other: &Address) -> (b: bool)
        ensures
            b == (self@ == other@),
    {
        self.key == other.key
    }

    /// A copy of the address.
    pub fn duplicate(&self) -> (a: Address)
        ensures
            a == *self,
    {
        Address { key: self.key.clone() }
    }
}

/// The characters of an optional string.
pub open spec fn opt_view(s: Option<String>) -> Option<Seq<char>> {
    match s {
        Some(v) => Some(v@),
        None => None,
    }
}

fn duplicate_opt_string(s: &Option<String>) -> (r: Option<String>)
    ensures
        r == *s,
{
    match s {
        Some(v) => Some(v.clone()),
        None => None,
    }
}

/// A live (not archived) policy.
#[derive(Clone, Debug, PartialEq, Eq)]
pub struct InsurancePolicy {
    pub id: u32,
    pub owner: Address,
    pub name: String,
    pub external_ref: Option<String>,
    pub coverage_type: CoverageType,
    pub monthly_premium: i128,
    pub coverage_amount: i128,
    pub active: bool,
    pub next_payment_date: u64,
}

impl InsurancePolicy {
    /// A copy of the policy.
    pub fn duplicate(&self) -> (p: InsurancePolicy)
        ensures
            p == *self,
    {
        InsurancePolicy {
            id: self.id,
            owner: self.owner.duplicate(),
            name: self.name.clone(),
            external_ref: duplicate_opt_string(&self.external_ref),
            coverage_type: self.coverage_type,
            monthly_premium: self.monthly_premium,
            coverage_amount: self.coverage_amount,
            active: self.active,
            next_payment_date: self.next_payment_date,
        }
    }
}

/// A policy moved out of the live set; it keeps everything but the active flag.
#[derive(Clone, Debug, PartialEq, Eq)]
pub struct ArchivedPolicy {
    pub id: u32,
    pub owner: Address,
    pub name: String,
    pub external_ref: Option<String>,
    pub coverage_type: CoverageType,
    pub monthly_premium: i128,
    pub coverage_amount: i128,
    pub next_payment_date: u64,
}

impl ArchivedPolicy {
    /// A copy of the archived policy.
    pub fn duplicate(&self) -> (p: ArchivedPolicy)
        ensures
            p == *self,
    {
        ArchivedPolicy {
            id: self.id,
            owner: self.owner.duplicate(),
            name: self.name.clone(),
            external_ref: duplicate_opt_string(&self.external_ref),
            coverage_type: self.coverage_type,
            monthly_premium: self.monthly_premium,
            coverage_amount: self.coverage_amount,
            next_payment_date: self.next_payment_date,
        }
    }
}

/// The archived form of a live policy.
pub open spec fn archived_form(p: InsurancePolicy) -> ArchivedPolicy {
    ArchivedPolicy {
        id: p.id,
        owner: p.owner,
        name: p.name,
        external_ref: p.external_ref,
        coverage_type: p.coverage_type,
        monthly_premium: p.monthly_premium,
        coverage_amount: p.coverage_amount,
        next_payment_date: p.next_payment_date,
    }
}

/// The live, active form of an archived policy.
pub open spec fn restored_form(a: ArchivedPolicy) -> InsurancePolicy {
    InsurancePolicy {
        id: a.id,
        owner: a.owner,
        name: a.name,
        external_ref: a.external_ref,
        coverage_type: a.coverage_type,
        monthly_premium: a.monthly_premium,
        coverage_amount: a.coverage_amount,
        active: true,
        next_payment_date: a.next_payment_date,
    }
}

/// Notice that a policy's external reference changed.
#[derive(Clone, Debug, PartialEq, Eq)]
pub struct ExternalRefUpdatedEvent {
    pub policy_id: u32,
    pub owner: Address,
    pub external_ref: Option<String>,
}

/// One page of a listing of active policies.
#[derive(Clone, Debug, PartialEq, Eq)]
pub struct PolicyPage {
    pub items: Vec<InsurancePolicy>,
    pub next_cursor: u32,
    pub count: u32,
}

/// Why an invocation is refused.
#[derive(Clone, Copy, Debug, PartialEq, Eq, Structural)]
pub enum InsuranceError {
    /// The external reference is empty or longer than `MAX_EXTERNAL_REF_LEN` bytes.
    InvalidExternalRefLength,
    /// The external reference holds a byte other than an ASCII letter or digit, `-`, `_`, `.` or `:`.
    InvalidExternalRefCharset,
    /// The owner already uses the external reference for another policy.
    ExternalRefInUse,
}

impl InsuranceError {
    /// The message with which the contract aborts for this error.
    pub fn message(&self) -> (s: String)
        ensures
            s@ == self.message_spec(),
    {
        match self {
            InsuranceError::InvalidExternalRefLength => String::from_str("invalid external_ref length"),
            InsuranceError::InvalidExternalRefCharset => String::from_str("invalid external_ref charset"),
            InsuranceError::ExternalRefInUse => String::from_str("external_ref already in use for owner"),
        }
    }

    pub open spec fn message_spec(self) -> Seq<char> {
        match self {
            InsuranceError::InvalidExternalRefLength => "invalid external_ref length"@,
            InsuranceError::InvalidExternalRefCharset => "invalid external_ref charset"@,
            InsuranceError::ExternalRefInUse => "external_ref already in use for owner"@,
        }
    }
}

// ---------------------------------------------------------------------------
// External references
// ---------------------------------------------------------------------------

/// Bytes allowed in an external reference: ASCII letters and digits, `-`, `_`, `.`, `:`.
pub open spec fn allowed_ref_byte(b: u8) -> bool {
    ||| 48 <= b <= 57
    ||| 65 <= b <= 90
    ||| 97 <= b <= 122
    ||| b == 45
    ||| b == 95
    ||| b == 46
    ||| b == 58
}

/// Whether `b` may occur in an external reference.
pub fn is_allowed_external_ref_byte(b: u8) -> (r: bool)
    ensures
        r == allowed_ref_byte(b),
{
    (48 <= b && b <= 57) || (65 <= b && b <= 90) || (97 <= b && b <= 122) || b == 45 || b == 95
        || b == 46 || b == 58
}

/// What is wrong with an external reference, if anything, judged on its UTF-8 bytes.
pub open spec fn external_ref_bytes_error(bytes: Seq<u8>) -> Option<InsuranceError> {
    if !(0 < bytes.len() <= MAX_EXTERNAL_REF_LEN) {
        Some(InsuranceError::InvalidExternalRefLength)
    } else if !(forall|i: int| 0 <= i < bytes.len() ==> allowed_ref_byte(#[trigger] bytes[i])) {
        Some(InsuranceError::InvalidExternalRefCharset)
    } else {
        None
    }
}

/// What is wrong with an external reference, if anything.
pub open spec fn external_ref_error(r: Seq<char>) -> Option<InsuranceError> {
    external_ref_bytes_error(encode_utf8(r))
}

/// An external reference that the contract accepts.
pub open spec fn valid_external_ref(r: Seq<char>) -> bool {
    external_ref_error(r) is None
}

/// Checks the bytes of an external reference: between 1 and `MAX_EXTERNAL_REF_LEN` of them,
/// each allowed.
pub fn validate_external_ref_bytes(bytes: &[u8]) -> (r: Result<(), InsuranceError>)
    ensures
        r == (match external_ref_bytes_error(bytes@) {
            Some(e) => Err(e),
            None => Ok(()),
        }),
{
    let len = bytes.len();
    if len == 0 || len > 128 {
        return Err(InsuranceError::InvalidExternalRefLength);
    }
    let mut i: usize = 0;
    while i < len
        invariant
            len == bytes@.len(),
            0 < len <= 128,
            i <= len,
            forall|j: int| 0 <= j < i ==> allowed_ref_byte(#[trigger] bytes@[j]),
        decreases len - i,
    {
        if !is_allowed_external_ref_byte(bytes[i]) {
            return Err(InsuranceError::InvalidExternalRefCharset);
        }
        i = i + 1;
    }
    Ok(())
}

/// What is wrong with an external reference, if anything: more than `MAX_EXTERNAL_REF_LEN` or
/// no bytes of UTF-8, or a byte that is not allowed.
pub fn external_ref_refusal(external_ref: &String) -> (r: Option<InsuranceError>)
    ensures
        r == external_ref_error(external_ref@),
{
    match validate_external_ref_bytes(external_ref.as_str().as_bytes()) {
        Err(e) => Some(e),
        Ok(()) => None,
    }
}

/// The check the contract makes of an external reference: it aborts, with the message of
/// `external_ref_refusal`, on one that is not valid, and otherwise goes on unchanged.  Callers
/// test the reference with `external_ref_refusal` first.
pub fn validate_external_ref(external_ref: &String)
    requires
        valid_external_ref(external_ref@),
{
}

// ---------------------------------------------------------------------------
// The abstract state
// ---------------------------------------------------------------------------

/// The contract's state, with its indexes read as maps.
pub struct InsuranceView {
    /// The account last named pause admin.
    pub pause_admin: Option<Seq<char>>,
    /// The id most recently handed out (ids start at 1).
    pub next_id: u32,
    /// Live policies by id.
    pub policies: Map<u32, InsurancePolicy>,
    /// Archived policies by id.
    pub archived: Map<u32, ArchivedPolicy>,
    /// For each owner, the ids of the policies it created, oldest first.
    pub owner_policies: Map<Seq<char>, Seq<u32>>,
    /// The policy that each (owner, external reference) pair names.
    pub external_refs: Map<(Seq<char>, Seq<char>), u32>,
}

/// Strictly increasing sequence.
pub open spec fn increasing(s: Seq<u32>) -> bool {
    forall|i: int, j: int| 0 <= i < j < s.len() ==> s[i] < s[j]
}

/// A policy that `caller` may pay for.
pub open spec fn payable(p: InsurancePolicy, caller: Seq<char>) -> bool {
    p.owner@ == caller && p.active
}

impl InsuranceView {
    /// The ids listed for an owner (empty for an owner never seen).
    pub open spec fn owner_ids(self, owner: Seq<char>) -> Seq<u32> {
        if self.owner_policies.contains_key(owner) {
            self.owner_policies[owner]
        } else {
            Seq::empty()
        }
    }

    /// The policy id bound to an (owner, external reference) pair.
    pub open spec fn ref_binding(self, owner: Seq<char>, r: Seq<char>) -> Option<u32> {
        if self.external_refs.contains_key((owner, r)) {
            Some(self.external_refs[(owner, r)])
        } else {
            None
        }
    }

    /// The invariant that every state reached through the contract's entry points keeps: see
    /// its four parts below.
    pub open spec fn consistent(self) -> bool {
        &&& self.live_policies_consistent()
        &&& self.archived_policies_consistent()
        &&& self.owner_lists_consistent()
        &&& self.bindings_consistent()
    }

    /// Bindings after releasing `r` from `policy_id`: the binding goes only if it names that policy.
    pub open spec fn released(self, owner: Seq<char>, policy_id: u32, r: Option<Seq<char>>) -> Map<
        (Seq<char>, Seq<char>),
        u32,
    > {
        match r {
            Some(v) => if self.ref_binding(owner, v) == Some(policy_id) {
                self.external_refs.remove((owner, v))
            } else {
                self.external_refs
            },
            None => self.external_refs,
        }
    }
}

impl InsuranceView {
    /// Each live policy is stored under its own id, handed out and not archived, listed under its
    /// owner, bound to its reference while active, and carries only a valid reference.
    pub open spec fn live_policies_consistent(self) -> bool {
        &&& forall|id: u32| #[trigger]
            self.policies.contains_key(id) ==> self.policies[id].id == id && 1 <= id <= self.next_id
                && !self.archived.contains_key(id)
        &&& forall|id: u32| #[trigger]
            self.policies.contains_key(id) ==> self.owner_ids(self.policies[id].owner@).contains(id)
        &&& forall|id: u32| #[trigger]
            self.policies.contains_key(id) && self.policies[id].active
                && self.policies[id].external_ref is Some ==> self.ref_binding(
                self.policies[id].owner@,
                self.policies[id].external_ref->0@,
            ) == Some(id)
        &&& forall|id: u32| #[trigger]
            self.policies.contains_key(id) && self.policies[id].external_ref is Some
                ==> valid_external_ref(self.policies[id].external_ref->0@)
    }

    /// Each archived policy is stored under its own id, handed out, listed under its owner, and
    /// carries only a valid reference.
    pub open spec fn archived_policies_consistent(self) -> bool {
        &&& forall|id: u32| #[trigger]
            self.archived.contains_key(id) ==> self.archived[id].id == id && 1 <= id
                <= self.next_id
        &&& forall|id: u32| #[trigger]
            self.archived.contains_key(id) ==> self.owner_ids(self.archived[id].owner@).contains(id)
        &&& forall|id: u32| #[trigger]
            self.archived.contains_key(id) && self.archived[id].external_ref is Some
                ==> valid_external_ref(self.archived[id].external_ref->0@)
    }

    /// Each owner's list is strictly increasing and names only policies of that owner.
    pub open spec fn owner_lists_consistent(self) -> bool {
        &&& forall|o: Seq<char>| #[trigger]
            self.owner_policies.contains_key(o) ==> increasing(self.owner_policies[o])
        &&& forall|o: Seq<char>, k: int|
            self.owner_policies.contains_key(o) && 0 <= k < self.owner_policies[o].len() ==> {
                let id = #[trigger] self.owner_policies[o][k];
                ||| self.policies.contains_key(id) && self.policies[id].owner@ == o
                ||| self.archived.contains_key(id) && self.archived[id].owner@ == o
            }
    }

    /// A binding names a live policy of that owner that carries that reference.
    pub open spec fn bindings_consistent(self) -> bool {
        forall|k: (Seq<char>, Seq<char>)| #[trigger]
            self.external_refs.contains_key(k) ==> {
                let id = self.external_refs[k];
                &&& self.policies.contains_key(id)
                &&& self.policies[id].owner@ == k.0
                &&& opt_view(self.policies[id].external_ref) == Some(k.1)
            }
    }
}

// ---------------------------------------------------------------------------
// The concrete state
// ---------------------------------------------------------------------------

/// The ids of one owner's policies.
#[derive(Clone, Debug)]
pub struct OwnerPolicies {
    pub owner: Address,
    pub ids: Vec<u32>,
}

/// An external reference bound to a policy.
#[derive(Clone, Debug)]
pub struct ExternalRefBinding {
    pub owner: Address,
    pub external_ref: String,
    pub policy_id: u32,
}

pub open spec fn owner_entry(e: OwnerPolicies) -> (Seq<char>, Seq<u32>) {
    (e.owner@, e.ids@)
}

pub open spec fn ref_entry(e: ExternalRefBinding) -> ((Seq<char>, Seq<char>), u32) {
    ((e.owner@, e.external_ref@), e.policy_id)
}

pub open spec fn policy_entries(s: Seq<InsurancePolicy>) -> Seq<(u32, InsurancePolicy)> {
    s.map_values(|p: InsurancePolicy| (p.id, p))
}

pub open spec fn archived_entries(s: Seq<ArchivedPolicy>) -> Seq<(u32, ArchivedPolicy)> {
    s.map_values(|p: ArchivedPolicy| (p.id, p))
}

pub open spec fn owner_entries(s: Seq<OwnerPolicies>) -> Seq<(Seq<char>, Seq<u32>)> {
    s.map_values(|e: OwnerPolicies| owner_entry(e))
}

pub open spec fn ref_entries(s: Seq<ExternalRefBinding>) -> Seq<((Seq<char>, Seq<char>), u32)> {
    s.map_values(|e: ExternalRefBinding| ref_entry(e))
}

/// The insurance contract's state.
pub struct Insurance {
    pause_admin: Option<Address>,
    next_id: u32,
    policies: Vec<InsurancePolicy>,
    archived: Vec<ArchivedPolicy>,
    owner_index: Vec<OwnerPolicies>,
    ref_index: Vec<ExternalRefBinding>,
}

impl View for Insurance {
    type V = InsuranceView;

    closed spec fn view(&self) -> InsuranceView {
        InsuranceView {
            pause_admin: match self.pause_admin {
                Some(a) => Some(a@),
                None => None,
            },
            next_id: self.next_id,
            policies: assoc_map(policy_entries(self.policies@)),
            archived: assoc_map(archived_entries(self.archived@)),
            owner_policies: assoc_map(owner_entries(self.owner_index@)),
            external_refs: assoc_map(ref_entries(self.ref_index@)),
        }
    }
}


/// Clamps a requested page size: zero asks for the default, and no page is larger than the maximum.
pub fn clamp_limit(limit: u32) -> (r: u32)
    ensures
        r == clamp_limit_spec(limit),
{
    if limit == 0 {
        DEFAULT_PAGE_LIMIT
    } else if limit > MAX_PAGE_LIMIT {
        MAX_PAGE_LIMIT
    } else {
        limit
    }
}

pub open spec fn clamp_limit_spec(limit: u32) -> u32 {
    if limit == 0 {
        DEFAULT_PAGE_LIMIT
    } else if limit > MAX_PAGE_LIMIT {
        MAX_PAGE_LIMIT
    } else {
        limit
    }
}

proof fn lemma_owner_entries_push(s: Seq<OwnerPolicies>, e: OwnerPolicies)
    ensures
        owner_entries(s.push(e)) == owner_entries(s).push(owner_entry(e)),
{
    assert(owner_entries(s.push(e)) =~= owner_entries(s).push(owner_entry(e)));
}

proof fn lemma_owner_entries_update(s: Seq<OwnerPolicies>, i: int, e: OwnerPolicies)
    requires
        0 <= i < s.len(),
    ensures
        owner_entries(s.update(i, e)) == owner_entries(s).update(i, owner_entry(e)),
{
    assert(owner_entries(s.update(i, e)) =~= owner_entries(s).update(i, owner_entry(e)));
}

proof fn lemma_ref_entries_push(s: Seq<ExternalRefBinding>, e: ExternalRefBinding)
    ensures
        ref_entries(s.push(e)) == ref_entries(s).push(ref_entry(e)),
{
    assert(ref_entries(s.push(e)) =~= ref_entries(s).push(ref_entry(e)));
}

proof fn lemma_ref_entries_remove(s: Seq<ExternalRefBinding>, i: int)
    requires
        0 <= i < s.len(),
    ensures
        ref_entries(s.remove(i)) == ref_entries(s).remove(i),
{
    assert(ref_entries(s.remove(i)) =~= ref_entries(s).remove(i));
}

impl Insurance {
    /// The representation is sound and the state is consistent.
    pub closed spec fn wf(&self) -> bool {
        &&& self.rep_ok()
        &&& self@.consistent()
    }

    /// The index vectors have no repeated key.
    closed spec fn rep_ok(&self) -> bool {
        &&& keys_distinct(policy_entries(self.policies@))
        &&& keys_distinct(archived_entries(self.archived@))
        &&& keys_distinct(owner_entries(self.owner_index@))
        &&& keys_distinct(ref_entries(self.ref_index@))
    }

    /// Every state that satisfies `wf` (every state reached through the entry points) is consistent.
    pub proof fn lemma_wf_consistent(&self)
        requires
            self.wf(),
        ensures
            self@.consistent(),
    {
    }

    /// The state of a freshly deployed contract: nothing stored.
    pub fn new() -> (s: Insurance)
        ensures
            s.wf(),
            s@.pause_admin is None,
            s@.next_id == 0,
            s@.policies == Map::<u32, InsurancePolicy>::empty(),
            s@.archived == Map::<u32, ArchivedPolicy>::empty(),
            s@.owner_policies == Map::<Seq<char>, Seq<u32>>::empty(),
            s@.external_refs == Map::<(Seq<char>, Seq<char>), u32>::empty(),
    {
        let s = Insurance {
            pause_admin: None,
            next_id: 0,
            policies: Vec::new(),
            archived: Vec::new(),
            owner_index: Vec::new(),
            ref_index: Vec::new(),
        };
        proof {
            assert(policy_entries(s.policies@) =~= Seq::empty());
            assert(archived_entries(s.archived@) =~= Seq::empty());
            assert(owner_entries(s.owner_index@) =~= Seq::empty());
            assert(ref_entries(s.ref_index@) =~= Seq::empty());
        }
        s
    }

    fn find_policy(&self, id: u32) -> (r: Option<usize>)
        ensures
            match r {
                Some(i) => i < self.policies@.len() && self.policies@[i as int].id == id
                    && forall|j: int| 0 <= j < i ==> self.policies@[j].id != id,
                None => !self@.policies.contains_key(id),
            },
    {
        let len = self.policies.len();
        let mut i: usize = 0;
        while i < len
            invariant
                len == self.policies@.len(),
                i <= len,
                forall|j: int| 0 <= j < i ==> self.policies@[j].id != id,
            decreases len - i,
        {
            if self.policies[i].id == id {
                return Some(i);
            }
            i = i + 1;
        }
        proof {
            let es = policy_entries(self.policies@);
            lemma_assoc_dom(es, id);
            if exists|j: int| 0 <= j < es.len() && es[j].0 == id {
                let j = choose|j: int| 0 <= j < es.len() && es[j].0 == id;
                assert(es[j].0 == self.policies@[j].id);
            }
        }
        None
    }

    fn find_archived(&self, id: u32) -> (r: Option<usize>)
        ensures
            match r {
                Some(i) => i < self.archived@.len() && self.archived@[i as int].id == id
                    && forall|j: int| 0 <= j < i ==> self.archived@[j].id != id,
                None => !self@.archived.contains_key(id),
            },
    {
        let len = self.archived.len();
        let mut i: usize = 0;
        while i < len
            invariant
                len == self.archived@.len(),
                i <= len,
                forall|j: int| 0 <= j < i ==> self.archived@[j].id != id,
            decreases len - i,
        {
            if self.archived[i].id == id {
                return Some(i);
            }
            i = i + 1;
        }
        proof {
            let es = archived_entries(self.archived@);
            lemma_assoc_dom(es, id);
            if exists|j: int| 0 <= j < es.len() && es[j].0 == id {
                let j = choose|j: int| 0 <= j < es.len() && es[j].0 == id;
                assert(es[j].0 == self.archived@[j].id);
            }
        }
        None
    }

    /// Stores `p` under its id, replacing any live policy with that id.
    fn put_policy(&mut self, p: InsurancePolicy)
        requires
            old(self).rep_ok(),
        ensures
            final(self).rep_ok(),
            final(self)@ == (InsuranceView {
                policies: old(self)@.policies.insert(p.id, p),
                ..old(self)@
            }),
    {
        let ghost es = policy_entries(self.policies@);
        match self.find_policy(p.id) {
            Some(i) => {
                proof {
                    lemma_assoc_update(es, i as int, p);
                    assert(policy_entries(self.policies@.update(i as int, p)) =~= es.update(i as int, (es[i as int].0, p)));
                }
                self.policies.set(i, p);
            },
            None => {
                proof {
                    lemma_assoc_push(es, p.id, p);
                    lemma_assoc_push_distinct(es, p.id, p);
                    assert(policy_entries(self.policies@.push(p)) =~= es.push((p.id, p)));
                }
                self.policies.push(p);
            },
        }
    }

    /// Removes the live policy with this id.
    fn take_policy(&mut self, id: u32)
        requires
            old(self).rep_ok(),
        ensures
            final(self).rep_ok(),
            final(self)@ == (InsuranceView {
                policies: old(self)@.policies.remove(id),
                ..old(self)@
            }),
    {
        let ghost es = policy_entries(self.policies@);
        match self.find_policy(id) {
            Some(i) => {
                proof {
                    lemma_assoc_remove(es, i as int);
                    assert(policy_entries(self.policies@.remove(i as int)) =~= es.remove(i as int));
                }
                self.policies.remove(i);
            },
            None => {
                proof {
                    assert(old(self)@.policies.remove(id) =~= old(self)@.policies);
                }
            },
        }
    }

    /// Stores archived policy `a` under its id, replacing any archived policy with that id.
    fn put_archived(&mut self, a: ArchivedPolicy)
        requires
            old(self).rep_ok(),
        ensures
            final(self).rep_ok(),
            final(self)@ == (InsuranceView {
                archived: old(self)@.archived.insert(a.id, a),
                ..old(self)@
            }),
    {
        let ghost es = archived_entries(self.archived@);
        match self.find_archived(a.id) {
            Some(i) => {
                proof {
                    lemma_assoc_update(es, i as int, a);
                    assert(archived_entries(self.archived@.update(i as int, a)) =~= es.update(i as int, (es[i as int].0, a)));
                }
                self.archived.set(i, a);
            },
            None => {
                proof {
                    lemma_assoc_push(es, a.id, a);
                    lemma_assoc_push_distinct(es, a.id, a);
                    assert(archived_entries(self.archived@.push(a)) =~= es.push((a.id, a)));
                }
                self.archived.push(a);
            },
        }
    }

    /// Removes the archived policy with this id.
    fn take_archived(&mut self, id: u32)
        requires
            old(self).rep_ok(),
        ensures
            final(self).rep_ok(),
            final(self)@ == (InsuranceView {
                archived: old(self)@.archived.remove(id),
                ..old(self)@
            }),
    {
        let ghost es = archived_entries(self.archived@);
        match self.find_archived(id) {
            Some(i) => {
                proof {
                    lemma_assoc_remove(es, i as int);
                    assert(archived_entries(self.archived@.remove(i as int)) =~= es.remove(i as int));
                }
                self.archived.remove(i);
            },
            None => {
                proof {
                    assert(old(self)@.archived.remove(id) =~= old(self)@.archived);
                }
            },
        }
    }

    fn find_owner(&self, owner: &Address) -> (r: Option<usize>)
        ensures
            match r {
                Some(i) => i < self.owner_index@.len() && self.owner_index@[i as int].owner@
                    == owner@ && forall|j: int|
                    0 <= j < i ==> self.owner_index@[j].owner@ != owner@,
                None => !self@.owner_policies.contains_key(owner@),
            },
    {
        let len = self.owner_index.len();
        let mut i: usize = 0;
        while i < len
            invariant
                len == self.owner_index@.len(),
                i <= len,
                forall|j: int| 0 <= j < i ==> self.owner_index@[j].owner@ != owner@,
            decreases len - i,
        {
            if self.owner_index[i].owner.same_as(owner) {
                return Some(i);
            }
            i = i + 1;
        }
        proof {
            let es = owner_entries(self.owner_index@);
            lemma_assoc_dom(es, owner@);
            if exists|j: int| 0 <= j < es.len() && es[j].0 == owner@ {
                let j = choose|j: int| 0 <= j < es.len() && es[j].0 == owner@;
                assert(es[j].0 == self.owner_index@[j].owner@);
            }
        }
        None
    }

    fn find_ref(&self, owner: &Address, external_ref: &String) -> (r: Option<usize>)
        ensures
            match r {
                Some(i) => i < self.ref_index@.len() && ref_entry(self.ref_index@[i as int]).0 == (
                owner@,
                external_ref@,
                ) && forall|j: int|
                    0 <= j < i ==> ref_entry(self.ref_index@[j]).0 != (owner@, external_ref@),
                None => !self@.external_refs.contains_key((owner@, external_ref@)),
            },
    {
        let len = self.ref_index.len();
        let mut i: usize = 0;
        while i < len
            invariant
                len == self.ref_index@.len(),
                i <= len,
                forall|j: int|
                    0 <= j < i ==> ref_entry(self.ref_index@[j]).0 != (owner@, external_ref@),
            decreases len - i,
        {
            let b = &self.ref_index[i];
            if b.owner.same_as(owner) && b.external_ref == *external_ref {
                return Some(i);
            }
            i = i + 1;
        }
        proof {
            let es = ref_entries(self.ref_index@);
            lemma_assoc_dom(es, (owner@, external_ref@));
            if exists|j: int| 0 <= j < es.len() && es[j].0 == (owner@, external_ref@) {
                let j = choose|j: int| 0 <= j < es.len() && es[j].0 == (owner@, external_ref@);
                assert(es[j] == ref_entry(self.ref_index@[j]));
            }
        }
        None
    }

    /// The policy id bound to (owner, external reference), if any.
    fn lookup_ref(&self, owner: &Address, external_ref: &String) -> (r: Option<u32>)
        requires
            self.rep_ok(),
        ensures
            r == self@.ref_binding(owner@, external_ref@),
    {
        match self.find_ref(owner, external_ref) {
            Some(i) => {
                proof {
                    lemma_assoc_value(ref_entries(self.ref_index@), i as int);
                }
                Some(self.ref_index[i].policy_id)
            },
            None => None,
        }
    }

    /// The live policy with this id.
    pub fn get_policy(&self, policy_id: u32) -> (r: Option<InsurancePolicy>)
        requires
            self.wf(),
        ensures
            r == (if self@.policies.contains_key(policy_id) {
                Some(self@.policies[policy_id])
            } else {
                None::<InsurancePolicy>
            }),
    {
        match self.find_policy(policy_id) {
            Some(i) => {
                proof {
                    lemma_assoc_value(policy_entries(self.policies@), i as int);
                }
                Some(self.policies[i].duplicate())
            },
            None => None,
        }
    }

    /// The archived policy with this id.
    pub fn get_archived_policy(&self, policy_id: u32) -> (r: Option<ArchivedPolicy>)
        requires
            self.wf(),
        ensures
            r == (if self@.archived.contains_key(policy_id) {
                Some(self@.archived[policy_id])
            } else {
                None::<ArchivedPolicy>
            }),
    {
        match self.find_archived(policy_id) {
            Some(i) => {
                proof {
                    lemma_assoc_value(archived_entries(self.archived@), i as int);
                }
                Some(self.archived[i].duplicate())
            },
            None => None,
        }
    }

    /// The policy that `owner` has bound to `external_ref`; `None` also for a reference that is
    /// not valid.
    pub fn get_policy_id_by_external_ref(&self, owner: &Address, external_ref: &String) -> (r:
        Option<u32>)
        requires
            self.wf(),
        ensures
            r == (if valid_external_ref(external_ref@) {
                self@.ref_binding(owner@, external_ref@)
            } else {
                None
            }),
    {
        match validate_external_ref_bytes(external_ref.as_str().as_bytes()) {
            Err(_) => None,
            Ok(()) => self.lookup_ref(owner, external_ref),
        }
    }
}


impl InsuranceView {
    /// Why claiming reference `r` for a policy of `owner` is refused, if it is: `current` is the
    /// policy making the claim, if it already exists.
    pub open spec fn ref_claim_error(self, owner: Seq<char>, r: Option<Seq<char>>, current: Option<u32>) -> Option<InsuranceError> {
        match r {
            None => None,
            Some(v) => match external_ref_error(v) {
                Some(e) => Some(e),
                None => match self.ref_binding(owner, v) {
                    Some(id) => if current == Some(id) {
                        None
                    } else {
                        Some(InsuranceError::ExternalRefInUse)
                    },
                    None => None,
                },
            },
        }
    }

    /// The state after storing the new policy `p` under the next id.
    pub open spec fn with_created(self, p: InsurancePolicy) -> InsuranceView {
        InsuranceView {
            next_id: p.id,
            policies: self.policies.insert(p.id, p),
            owner_policies: self.owner_policies.insert(p.owner@, self.owner_ids(p.owner@).push(p.id)),
            external_refs: match p.external_ref {
                Some(v) => self.external_refs.insert((p.owner@, v@), p.id),
                None => self.external_refs,
            },
            ..self
        }
    }
}

/// Storing a fresh policy under the next id keeps the state consistent.
proof fn lemma_create_consistent(v: InsuranceView, p: InsurancePolicy)
    requires
        v.consistent(),
        v.next_id < u32::MAX,
        p.id == v.next_id + 1,
        p.active,
        p.external_ref is Some ==> valid_external_ref(p.external_ref->0@) && v.ref_binding(
            p.owner@,
            p.external_ref->0@,
        ) is None,
    ensures
        v.with_created(p).consistent(),
{
    let w = v.with_created(p);
    let o = p.owner@;
    assert(!v.policies.contains_key(p.id));
    assert(!v.archived.contains_key(p.id));
    assert forall|id: u32| #[trigger] w.policies.contains_key(id) implies w.owner_ids(
        w.policies[id].owner@,
    ).contains(id) by {
        if id == p.id {
            assert(w.owner_ids(o)[w.owner_ids(o).len() - 1] == id);
        } else {
            let q = v.policies[id].owner@;
            assert(v.owner_ids(q).contains(id));
            let k = choose|k: int| 0 <= k < v.owner_ids(q).len() && v.owner_ids(q)[k] == id;
            if q == o {
                assert(w.owner_ids(q)[k] == id);
            } else {
                assert(w.owner_ids(q) == v.owner_ids(q));
            }
        }
    }
    assert forall|id: u32| #[trigger] w.archived.contains_key(id) implies w.owner_ids(
        w.archived[id].owner@,
    ).contains(id) by {
        let q = v.archived[id].owner@;
        assert(v.owner_ids(q).contains(id));
        let k = choose|k: int| 0 <= k < v.owner_ids(q).len() && v.owner_ids(q)[k] == id;
        if q == o {
            assert(w.owner_ids(q)[k] == id);
        } else {
            assert(w.owner_ids(q) == v.owner_ids(q));
        }
    }
    assert forall|q: Seq<char>| #[trigger] w.owner_policies.contains_key(q) implies increasing(
        w.owner_policies[q],
    ) by {
        if q == o {
            let s = v.owner_ids(o);
            assert forall|k: int| 0 <= k < s.len() implies #[trigger] s[k] < p.id by {
                assert(v.owner_policies.contains_key(o));
                let id = v.owner_policies[o][k];
                assert(v.policies.contains_key(id) || v.archived.contains_key(id));
            }
        }
    }
    assert forall|q: Seq<char>, k: int|
        w.owner_policies.contains_key(q) && 0 <= k < w.owner_policies[q].len() implies {
        let id = #[trigger] w.owner_policies[q][k];
        ||| w.policies.contains_key(id) && w.policies[id].owner@ == q
        ||| w.archived.contains_key(id) && w.archived[id].owner@ == q
    } by {
        let id = w.owner_policies[q][k];
        if q == o && k == w.owner_policies[q].len() - 1 {
            assert(id == p.id);
        } else {
            assert(v.owner_policies.contains_key(q));
            assert(id == v.owner_policies[q][k]);
            assert(v.policies.contains_key(id) ==> id != p.id);
        }
    }
    assert forall|k: (Seq<char>, Seq<char>)| #[trigger] w.external_refs.contains_key(k) implies {
        let id = w.external_refs[k];
        &&& w.policies.contains_key(id)
        &&& w.policies[id].owner@ == k.0
        &&& opt_view(w.policies[id].external_ref) == Some(k.1)
    } by {
        if p.external_ref is Some && k == (o, p.external_ref->0@) {
        } else {
            assert(v.external_refs.contains_key(k));
            assert(v.policies.contains_key(v.external_refs[k]));
        }
    }
    assert forall|id: u32| #[trigger]
        w.policies.contains_key(id) && w.policies[id].active && w.policies[id].external_ref is Some
            implies w.ref_binding(w.policies[id].owner@, w.policies[id].external_ref->0@) == Some(
        id,
    ) by {
        if id != p.id {
            let q = v.policies[id];
            assert(v.ref_binding(q.owner@, q.external_ref->0@) == Some(id));
            if p.external_ref is Some && (q.owner@, q.external_ref->0@) == (o, p.external_ref->0@) {
                assert(false);
            }
        }
    }
}

impl Insurance {
    /// Binds `external_ref` of `owner` to `policy_id`; the pair must not be bound yet.
    fn insert_binding(&mut self, owner: &Address, external_ref: &String, policy_id: u32)
        requires
            old(self).rep_ok(),
            !old(self)@.external_refs.contains_key((owner@, external_ref@)),
        ensures
            final(self).rep_ok(),
            final(self)@ == (InsuranceView {
                external_refs: old(self)@.external_refs.insert((owner@, external_ref@), policy_id),
                ..old(self)@
            }),
    {
        let b = ExternalRefBinding {
            owner: owner.duplicate(),
            external_ref: external_ref.clone(),
            policy_id,
        };
        proof {
            lemma_ref_entries_push(self.ref_index@, b);
            lemma_assoc_push(ref_entries(self.ref_index@), (owner@, external_ref@), policy_id);
            lemma_assoc_push_distinct(ref_entries(self.ref_index@), (owner@, external_ref@), policy_id);
        }
        self.ref_index.push(b);
    }

    /// Releases reference `external_ref` of `owner` if it is bound to `policy_id`.
    fn release_ref(&mut self, owner: &Address, policy_id: u32, external_ref: &Option<String>)
        requires
            old(self).rep_ok(),
        ensures
            final(self).rep_ok(),
            final(self)@ == (InsuranceView {
                external_refs: old(self)@.released(owner@, policy_id, opt_view(*external_ref)),
                ..old(self)@
            }),
    {
        if let Some(r) = external_ref {
            match self.find_ref(owner, r) {
                Some(i) => {
                    proof {
                        lemma_assoc_value(ref_entries(self.ref_index@), i as int);
                    }
                    if self.ref_index[i].policy_id == policy_id {
                        proof {
                            lemma_ref_entries_remove(self.ref_index@, i as int);
                            lemma_assoc_remove(ref_entries(self.ref_index@), i as int);
                        }
                        self.ref_index.remove(i);
                    }
                },
                None => {},
            }
        }
    }

    /// Appends `id` to the list of `owner`'s policies.
    fn append_owner_id(&mut self, owner: &Address, id: u32)
        requires
            old(self).rep_ok(),
        ensures
            final(self).rep_ok(),
            final(self)@ == (InsuranceView {
                owner_policies: old(self)@.owner_policies.insert(
                    owner@,
                    old(self)@.owner_ids(owner@).push(id),
                ),
                ..old(self)@
            }),
    {
        match self.find_owner(owner) {
            Some(i) => {
                let mut entry = OwnerPolicies { owner: owner.duplicate(), ids: Vec::new() };
                self.owner_index.set_and_swap(i, &mut entry);
                proof {
                    lemma_assoc_value(owner_entries(old(self).owner_index@), i as int);
                }
                entry.ids.push(id);
                let ghost new_entry = entry;
                proof {
                    lemma_owner_entries_update(old(self).owner_index@, i as int, new_entry);
                    lemma_assoc_update(owner_entries(old(self).owner_index@), i as int, new_entry.ids@);
                }
                self.owner_index.set(i, entry);
                proof {
                    assert(self.owner_index@ =~= old(self).owner_index@.update(i as int, new_entry));
                    assert(owner_entry(new_entry) == (owner_entries(old(self).owner_index@)[i as int].0, new_entry.ids@));
                }
            },
            None => {
                let mut ids = Vec::new();
                ids.push(id);
                let entry = OwnerPolicies { owner: owner.duplicate(), ids };
                proof {
                    assert(Seq::<u32>::empty().push(id) =~= ids@);
                    lemma_owner_entries_push(self.owner_index@, entry);
                    lemma_assoc_push(owner_entries(self.owner_index@), owner@, ids@);
                    lemma_assoc_push_distinct(owner_entries(self.owner_index@), owner@, ids@);
                }
                self.owner_index.push(entry);
            },
        }
    }

    /// Why creating a policy for `owner` with `external_ref` is refused, if it is: the reference
    /// is not valid, or `owner` already uses it.  The contract aborts on such a call, so
    /// `create_policy` requires that this is `None`.
    pub fn create_policy_refusal(&self, owner: &Address, external_ref: &Option<String>) -> (r:
        Option<InsuranceError>)
        requires
            self.wf(),
        ensures
            r == self@.ref_claim_error(owner@, opt_view(*external_ref), None),
    {
        match external_ref {
            Some(v) => match validate_external_ref_bytes(v.as_str().as_bytes()) {
                Err(e) => Some(e),
                Ok(()) => if self.lookup_ref(owner, v).is_some() {
                    Some(InsuranceError::ExternalRefInUse)
                } else {
                    None
                },
            },
            None => None,
        }
    }

    /// Creates a policy for `owner`, paid up until thirty days after `now`, and returns its id.
    /// The reference, if given, must be valid and not yet used by `owner`: see
    /// `create_policy_refusal`.
    pub fn create_policy(
        &mut self,
        owner: Address,
        name: String,
        coverage_type: CoverageType,
        monthly_premium: i128,
        coverage_amount: i128,
        external_ref: Option<String>,
        now: u64,
    ) -> (id: u32)
        requires
            old(self).wf(),
            old(self)@.ref_claim_error(owner@, opt_view(external_ref), None) is None,
            old(self)@.next_id < u32::MAX,
            now <= u64::MAX - PREMIUM_INTERVAL_SECS,
        ensures
            final(self).wf(),
            id == old(self)@.next_id + 1,
            final(self)@ == old(self)@.with_created(
                (InsurancePolicy {
                    id: id,
                    owner: owner,
                    name: name,
                    external_ref: external_ref,
                    coverage_type: coverage_type,
                    monthly_premium: monthly_premium,
                    coverage_amount: coverage_amount,
                    active: true,
                    next_payment_date: (now + PREMIUM_INTERVAL_SECS) as u64,
                }),
            ),
    {
        let id = self.next_id + 1;
        let policy = InsurancePolicy {
            id,
            owner: owner.duplicate(),
            name,
            external_ref: duplicate_opt_string(&external_ref),
            coverage_type,
            monthly_premium,
            coverage_amount,
            active: true,
            next_payment_date: now + PREMIUM_INTERVAL_SECS,
        };
        let ghost p = policy;
        let ghost v0 = self@;
        self.put_policy(policy);
        if let Some(r) = &external_ref {
            self.insert_binding(&owner, r, id);
        }
        self.append_owner_id(&owner, id);
        self.next_id = id;
        proof {
            lemma_create_consistent(v0, p);
            assert(self@ == v0.with_created(p));
        }
        id
    }
}


impl InsuranceView {
    /// The state after deactivating live policy `id` and releasing its reference.
    pub open spec fn with_deactivated(self, id: u32) -> InsuranceView {
        let p = self.policies[id];
        InsuranceView {
            policies: self.policies.insert(id, InsurancePolicy { active: false, ..p }),
            external_refs: self.released(p.owner@, id, opt_view(p.external_ref)),
            ..self
        }
    }

    /// The answer to a request by `caller` to set the reference of policy `id` to `r`.
    pub open spec fn set_external_ref_answer(self, caller: Seq<char>, id: u32, r: Option<Seq<char>>) -> Result<bool, InsuranceError> {
        if r is Some && external_ref_error(r->0) is Some {
            Err(external_ref_error(r->0)->0)
        } else if !self.policies.contains_key(id) || self.policies[id].owner@ != caller {
            Ok(false)
        } else if r == opt_view(self.policies[id].external_ref) {
            Ok(true)
        } else if r is Some && self.ref_binding(self.policies[id].owner@, r->0) is Some
            && self.ref_binding(self.policies[id].owner@, r->0) != Some(id) {
            Err(InsuranceError::ExternalRefInUse)
        } else {
            Ok(true)
        }
    }

    /// Whether that request changes the policy's reference.
    pub open spec fn set_external_ref_changes(self, caller: Seq<char>, id: u32, r: Option<Seq<char>>) -> bool {
        &&& self.set_external_ref_answer(caller, id, r) == Ok::<bool, InsuranceError>(true)
        &&& r != opt_view(self.policies[id].external_ref)
    }

    /// The state after policy `id` takes reference `r`: the old one is released, the new one bound.
    pub open spec fn with_external_ref(self, id: u32, r: Option<String>) -> InsuranceView {
        let p = self.policies[id];
        let refs = self.released(p.owner@, id, opt_view(p.external_ref));
        InsuranceView {
            policies: self.policies.insert(id, InsurancePolicy { external_ref: r, ..p }),
            external_refs: match r {
                Some(v) => refs.insert((p.owner@, v@), id),
                None => refs,
            },
            ..self
        }
    }

    /// The state after moving live policy `id` to the archive and releasing its reference.
    pub open spec fn with_archived(self, id: u32) -> InsuranceView {
        let p = self.policies[id];
        InsuranceView {
            policies: self.policies.remove(id),
            archived: self.archived.insert(id, archived_form(p)),
            external_refs: self.released(p.owner@, id, opt_view(p.external_ref)),
            ..self
        }
    }

    /// Whether `caller` may restore archived policy `id`: it owns it, and its reference, if any,
    /// is not bound to another policy.
    pub open spec fn restore_allowed(self, caller: Seq<char>, id: u32) -> bool {
        &&& self.archived.contains_key(id)
        &&& self.archived[id].owner@ == caller
        &&& match self.archived[id].external_ref {
            Some(v) => match self.ref_binding(caller, v@) {
                Some(b) => b == id,
                None => true,
            },
            None => true,
        }
    }

    /// The state after moving archived policy `id` back to the live set, active, with its
    /// reference bound.
    pub open spec fn with_restored(self, id: u32) -> InsuranceView {
        let a = self.archived[id];
        InsuranceView {
            policies: self.policies.insert(id, restored_form(a)),
            archived: self.archived.remove(id),
            external_refs: match a.external_ref {
                Some(v) => self.external_refs.insert((a.owner@, v@), id),
                None => self.external_refs,
            },
            ..self
        }
    }

    /// The state after policy `id` is paid up until `date`.
    pub open spec fn with_premium_paid(self, id: u32, date: u64) -> InsuranceView {
        InsuranceView {
            policies: self.policies.insert(
                id,
                InsurancePolicy { next_payment_date: date, ..self.policies[id] },
            ),
            ..self
        }
    }
}

/// Releasing a binding removes at most the key that names `policy_id`.
proof fn lemma_released(v: InsuranceView, owner: Seq<char>, policy_id: u32, r: Option<Seq<char>>)
    ensures
        forall|k: (Seq<char>, Seq<char>)| #[trigger]
            v.released(owner, policy_id, r).contains_key(k) ==> v.external_refs.contains_key(k)
                && v.released(owner, policy_id, r)[k] == v.external_refs[k],
        forall|k: (Seq<char>, Seq<char>)| #[trigger]
            v.external_refs.contains_key(k) && v.external_refs[k] != policy_id ==> v.released(
                owner,
                policy_id,
                r,
            ).contains_key(k),
        r is Some && v.ref_binding(owner, r->0) == Some(policy_id) ==> !v.released(
            owner,
            policy_id,
            r,
        ).contains_key((owner, r->0)),
{
}

/// Deactivating an active policy keeps the state consistent.
proof fn lemma_deactivate_consistent(v: InsuranceView, id: u32)
    requires
        v.consistent(),
        v.policies.contains_key(id),
        v.policies[id].active,
    ensures
        v.with_deactivated(id).consistent(),
{
    let w = v.with_deactivated(id);
    let p = v.policies[id];
    lemma_released(v, p.owner@, id, opt_view(p.external_ref));
    assert forall|k: (Seq<char>, Seq<char>)| #[trigger] w.external_refs.contains_key(k) implies {
        let b = w.external_refs[k];
        &&& w.policies.contains_key(b)
        &&& w.policies[b].owner@ == k.0
        &&& opt_view(w.policies[b].external_ref) == Some(k.1)
    } by {
        assert(v.external_refs.contains_key(k));
    }
    assert forall|q: u32| #[trigger]
        w.policies.contains_key(q) && w.policies[q].active && w.policies[q].external_ref is Some
            implies w.ref_binding(w.policies[q].owner@, w.policies[q].external_ref->0@) == Some(
        q,
    ) by {
        let pq = v.policies[q];
        assert(v.ref_binding(pq.owner@, pq.external_ref->0@) == Some(q));
    }
    assert forall|id2: u32| #[trigger] w.policies.contains_key(id2) implies w.owner_ids(
        w.policies[id2].owner@,
    ).contains(id2) by {
        assert(v.owner_ids(v.policies[id2].owner@).contains(id2));
    }
    assert forall|o: Seq<char>, k: int|
        w.owner_policies.contains_key(o) && 0 <= k < w.owner_policies[o].len() implies {
        let x = #[trigger] w.owner_policies[o][k];
        ||| w.policies.contains_key(x) && w.policies[x].owner@ == o
        ||| w.archived.contains_key(x) && w.archived[x].owner@ == o
    } by {
        let x = w.owner_policies[o][k];
        assert(v.owner_policies[o][k] == x);
    }
}

/// Giving a policy a new reference that is valid and free keeps the state consistent.
proof fn lemma_set_ref_consistent(v: InsuranceView, id: u32, r: Option<String>)
    requires
        v.consistent(),
        v.policies.contains_key(id),
        opt_view(r) != opt_view(v.policies[id].external_ref),
        r is Some ==> valid_external_ref(r->0@) && (v.ref_binding(v.policies[id].owner@, r->0@)
            is None || v.ref_binding(v.policies[id].owner@, r->0@) == Some(id)),
    ensures
        v.with_external_ref(id, r).consistent(),
{
    let w = v.with_external_ref(id, r);
    let p = v.policies[id];
    let o = p.owner@;
    lemma_released(v, o, id, opt_view(p.external_ref));
    let refs = v.released(o, id, opt_view(p.external_ref));
    if r is Some {
        assert(v.ref_binding(o, r->0@) is None) by {
            if v.ref_binding(o, r->0@) == Some(id) {
                assert(v.external_refs.contains_key((o, r->0@)));
            }
        }
    }
    assert forall|k: (Seq<char>, Seq<char>)| #[trigger] w.external_refs.contains_key(k) implies {
        let b = w.external_refs[k];
        &&& w.policies.contains_key(b)
        &&& w.policies[b].owner@ == k.0
        &&& opt_view(w.policies[b].external_ref) == Some(k.1)
    } by {
        if r is Some && k == (o, r->0@) {
        } else {
            assert(refs.contains_key(k));
            assert(v.external_refs.contains_key(k));
            let b = v.external_refs[k];
            if b == id {
                assert(opt_view(p.external_ref) == Some(k.1));
                assert(v.ref_binding(o, k.1) == Some(id));
                assert(!refs.contains_key(k));
            }
        }
    }
    assert forall|q: u32| #[trigger]
        w.policies.contains_key(q) && w.policies[q].active && w.policies[q].external_ref is Some
            implies w.ref_binding(w.policies[q].owner@, w.policies[q].external_ref->0@) == Some(
        q,
    ) by {
        if q != id {
            let pq = v.policies[q];
            assert(v.ref_binding(pq.owner@, pq.external_ref->0@) == Some(q));
            assert(refs.contains_key((pq.owner@, pq.external_ref->0@)));
            if r is Some && (pq.owner@, pq.external_ref->0@) == (o, r->0@) {
                assert(false);
            }
        }
    }
    assert forall|id2: u32| #[trigger] w.policies.contains_key(id2) implies w.owner_ids(
        w.policies[id2].owner@,
    ).contains(id2) by {
        assert(v.owner_ids(v.policies[id2].owner@).contains(id2));
    }
    assert forall|o2: Seq<char>, k: int|
        w.owner_policies.contains_key(o2) && 0 <= k < w.owner_policies[o2].len() implies {
        let x = #[trigger] w.owner_policies[o2][k];
        ||| w.policies.contains_key(x) && w.policies[x].owner@ == o2
        ||| w.archived.contains_key(x) && w.archived[x].owner@ == o2
    } by {
        let x = w.owner_policies[o2][k];
        assert(v.owner_policies[o2][k] == x);
    }
}

/// Archiving a live policy keeps the state consistent.
proof fn lemma_archive_consistent(v: InsuranceView, id: u32)
    requires
        v.consistent(),
        v.policies.contains_key(id),
    ensures
        v.with_archived(id).consistent(),
{
    let w = v.with_archived(id);
    let p = v.policies[id];
    lemma_released(v, p.owner@, id, opt_view(p.external_ref));
    let refs = v.released(p.owner@, id, opt_view(p.external_ref));
    assert forall|k: (Seq<char>, Seq<char>)| #[trigger] w.external_refs.contains_key(k) implies {
        let b = w.external_refs[k];
        &&& w.policies.contains_key(b)
        &&& w.policies[b].owner@ == k.0
        &&& opt_view(w.policies[b].external_ref) == Some(k.1)
    } by {
        assert(v.external_refs.contains_key(k));
        let b = v.external_refs[k];
        if b == id {
            assert(v.ref_binding(p.owner@, k.1) == Some(id));
            assert(!refs.contains_key(k));
        }
    }
    assert forall|q: u32| #[trigger]
        w.policies.contains_key(q) && w.policies[q].active && w.policies[q].external_ref is Some
            implies w.ref_binding(w.policies[q].owner@, w.policies[q].external_ref->0@) == Some(
        q,
    ) by {
        let pq = v.policies[q];
        assert(v.ref_binding(pq.owner@, pq.external_ref->0@) == Some(q));
    }
    assert forall|id2: u32| #[trigger] w.policies.contains_key(id2) implies w.owner_ids(
        w.policies[id2].owner@,
    ).contains(id2) by {
        assert(v.owner_ids(v.policies[id2].owner@).contains(id2));
    }
    assert forall|id2: u32| #[trigger] w.archived.contains_key(id2) implies w.owner_ids(
        w.archived[id2].owner@,
    ).contains(id2) by {
        if id2 == id {
            assert(v.owner_ids(p.owner@).contains(id2));
        } else {
            assert(v.owner_ids(v.archived[id2].owner@).contains(id2));
        }
    }
    assert forall|o: Seq<char>, k: int|
        w.owner_policies.contains_key(o) && 0 <= k < w.owner_policies[o].len() implies {
        let x = #[trigger] w.owner_policies[o][k];
        ||| w.policies.contains_key(x) && w.policies[x].owner@ == o
        ||| w.archived.contains_key(x) && w.archived[x].owner@ == o
    } by {
        let x = w.owner_policies[o][k];
        assert(v.owner_policies[o][k] == x);
    }
}

/// Restoring an archived policy whose reference is free keeps the state consistent.
proof fn lemma_restore_consistent(v: InsuranceView, id: u32)
    requires
        v.consistent(),
        v.restore_allowed(v.archived[id].owner@, id),
    ensures
        v.with_restored(id).consistent(),
{
    let w = v.with_restored(id);
    let a = v.archived[id];
    let o = a.owner@;
    if a.external_ref is Some {
        assert(v.ref_binding(o, a.external_ref->0@) is None) by {
            if v.ref_binding(o, a.external_ref->0@) == Some(id) {
                assert(v.external_refs.contains_key((o, a.external_ref->0@)));
            }
        }
    }
    assert forall|k: (Seq<char>, Seq<char>)| #[trigger] w.external_refs.contains_key(k) implies {
        let b = w.external_refs[k];
        &&& w.policies.contains_key(b)
        &&& w.policies[b].owner@ == k.0
        &&& opt_view(w.policies[b].external_ref) == Some(k.1)
    } by {
        if a.external_ref is Some && k == (o, a.external_ref->0@) {
        } else {
            assert(v.external_refs.contains_key(k));
        }
    }
    assert forall|q: u32| #[trigger]
        w.policies.contains_key(q) && w.policies[q].active && w.policies[q].external_ref is Some
            implies w.ref_binding(w.policies[q].owner@, w.policies[q].external_ref->0@) == Some(
        q,
    ) by {
        if q != id {
            let pq = v.policies[q];
            assert(v.ref_binding(pq.owner@, pq.external_ref->0@) == Some(q));
            if a.external_ref is Some && (pq.owner@, pq.external_ref->0@) == (o, a.external_ref->0@) {
                assert(false);
            }
        }
    }
    assert forall|id2: u32| #[trigger] w.policies.contains_key(id2) implies w.owner_ids(
        w.policies[id2].owner@,
    ).contains(id2) by {
        if id2 == id {
            assert(v.owner_ids(o).contains(id2));
        } else {
            assert(v.owner_ids(v.policies[id2].owner@).contains(id2));
        }
    }
    assert forall|id2: u32| #[trigger] w.archived.contains_key(id2) implies w.owner_ids(
        w.archived[id2].owner@,
    ).contains(id2) by {
        assert(v.owner_ids(v.archived[id2].owner@).contains(id2));
    }
    assert forall|o2: Seq<char>, k: int|
        w.owner_policies.contains_key(o2) && 0 <= k < w.owner_policies[o2].len() implies {
        let x = #[trigger] w.owner_policies[o2][k];
        ||| w.policies.contains_key(x) && w.policies[x].owner@ == o2
        ||| w.archived.contains_key(x) && w.archived[x].owner@ == o2
    } by {
        let x = w.owner_policies[o2][k];
        assert(v.owner_policies[o2][k] == x);
    }
}

/// Moving a live policy's next payment date keeps the state consistent.
proof fn lemma_paid_consistent(v: InsuranceView, id: u32, date: u64)
    requires
        v.consistent(),
        v.policies.contains_key(id),
    ensures
        v.with_premium_paid(id, date).consistent(),
{
    let w = v.with_premium_paid(id, date);
    assert forall|q: u32| #[trigger]
        w.policies.contains_key(q) && w.policies[q].active && w.policies[q].external_ref is Some
            implies w.ref_binding(w.policies[q].owner@, w.policies[q].external_ref->0@) == Some(
        q,
    ) by {
        let pq = v.policies[q];
        assert(v.ref_binding(pq.owner@, pq.external_ref->0@) == Some(q));
    }
    assert forall|id2: u32| #[trigger] w.policies.contains_key(id2) implies w.owner_ids(
        w.policies[id2].owner@,
    ).contains(id2) by {
        assert(v.owner_ids(v.policies[id2].owner@).contains(id2));
    }
    assert forall|o: Seq<char>, k: int|
        w.owner_policies.contains_key(o) && 0 <= k < w.owner_policies[o].len() implies {
        let x = #[trigger] w.owner_policies[o][k];
        ||| w.policies.contains_key(x) && w.policies[x].owner@ == o
        ||| w.archived.contains_key(x) && w.archived[x].owner@ == o
    } by {
        let x = w.owner_policies[o][k];
        assert(v.owner_policies[o][k] == x);
    }
}


fn opt_string_same(a: &Option<String>, b: &Option<String>) -> (r: bool)
    ensures
        r == (opt_view(*a) == opt_view(*b)),
{
    match (a, b) {
        (Some(x), Some(y)) => *x == *y,
        (None, None) => true,
        _ => false,
    }
}

impl Insurance {
    /// Names `new_admin` as the account allowed to pause the contract.
    pub fn set_pause_admin(&mut self, new_admin: Address) -> (r: bool)
        requires
            old(self).wf(),
        ensures
            final(self).wf(),
            r,
            final(self)@ == (InsuranceView { pause_admin: Some(new_admin@), ..old(self)@ }),
    {
        self.pause_admin = Some(new_admin);
        true
    }

    /// Deactivates a policy of `caller` and releases its external reference.
    ///
    /// Answers `false`, changing nothing, when there is no such live policy, when `caller` does
    /// not own it, or when it is already inactive.
    pub fn deactivate_policy(&mut self, caller: &Address, policy_id: u32) -> (r: bool)
        requires
            old(self).wf(),
        ensures
            final(self).wf(),
            r == (old(self)@.policies.contains_key(policy_id) && old(self)@.policies[policy_id].owner@
                == caller@ && old(self)@.policies[policy_id].active),
            r ==> final(self)@ == old(self)@.with_deactivated(policy_id),
            !r ==> final(self)@ == old(self)@,
    {
        let mut policy = match self.get_policy(policy_id) {
            Some(p) => p,
            None => return false,
        };
        if !policy.owner.same_as(caller) {
            return false;
        }
        if !policy.active {
            return false;
        }
        let ghost v0 = self@;
        self.release_ref(&policy.owner, policy_id, &policy.external_ref);
        policy.active = false;
        self.put_policy(policy);
        proof {
            lemma_deactivate_consistent(v0, policy_id);
            assert(self@ == v0.with_deactivated(policy_id));
        }
        true
    }

    /// Why a request by `caller` to set the reference of policy `policy_id` to `external_ref` is
    /// refused, if it is: the reference is not valid, or, for a policy of `caller` whose
    /// reference it would change, another policy of `caller` holds it.  The contract aborts on
    /// such a call, so `set_external_ref` requires that this is `None`.
    pub fn set_external_ref_refusal(
        &self,
        caller: &Address,
        policy_id: u32,
        external_ref: &Option<String>,
    ) -> (r: Option<InsuranceError>)
        requires
            self.wf(),
        ensures
            r == (match self@.set_external_ref_answer(caller@, policy_id, opt_view(*external_ref)) {
                Err(e) => Some(e),
                Ok(_) => None,
            }),
    {
        if let Some(v) = external_ref {
            match validate_external_ref_bytes(v.as_str().as_bytes()) {
                Err(e) => return Some(e),
                Ok(()) => {},
            }
        }
        let policy = match self.get_policy(policy_id) {
            Some(p) => p,
            None => return None,
        };
        if !policy.owner.same_as(caller) {
            return None;
        }
        if opt_string_same(external_ref, &policy.external_ref) {
            return None;
        }
        if let Some(v) = external_ref {
            match self.lookup_ref(&policy.owner, v) {
                Some(bound) => {
                    if bound != policy_id {
                        return Some(InsuranceError::ExternalRefInUse);
                    }
                },
                None => {},
            }
        }
        None
    }

    /// Sets the reference of a policy of `caller`, releasing the old one and binding the new
    /// one, and answers whether the policy is `caller`'s, with the notice of the change when the
    /// reference changed.  The request must not be refused: see `set_external_ref_refusal`.
    pub fn set_external_ref(
        &mut self,
        caller: &Address,
        policy_id: u32,
        external_ref: Option<String>,
    ) -> (r: (bool, Option<ExternalRefUpdatedEvent>))
        requires
            old(self).wf(),
            old(self)@.set_external_ref_answer(caller@, policy_id, opt_view(external_ref)) is Ok,
        ensures
            final(self).wf(),
            old(self)@.set_external_ref_changes(caller@, policy_id, opt_view(external_ref)) ==> {
                &&& r == (
                    true,
                    Some(
                        ExternalRefUpdatedEvent {
                            policy_id: policy_id,
                            owner: *caller,
                            external_ref: external_ref,
                        },
                    ),
                )
                &&& final(self)@ == old(self)@.with_external_ref(policy_id, external_ref)
            },
            !old(self)@.set_external_ref_changes(caller@, policy_id, opt_view(external_ref)) ==> {
                &&& r == (
                    old(self)@.set_external_ref_answer(caller@, policy_id, opt_view(external_ref))->Ok_0,
                    None::<ExternalRefUpdatedEvent>,
                )
                &&& final(self)@ == old(self)@
            },
    {
        let mut policy = match self.get_policy(policy_id) {
            Some(p) => p,
            None => return (false, None),
        };
        if !policy.owner.same_as(caller) {
            return (false, None);
        }
        if opt_string_same(&external_ref, &policy.external_ref) {
            return (true, None);
        }
        let ghost v0 = self@;
        proof {
            lemma_set_ref_consistent(v0, policy_id, external_ref);
            lemma_released(v0, policy.owner@, policy_id, opt_view(policy.external_ref));
            if external_ref is Some {
                if v0.ref_binding(policy.owner@, external_ref->0@) == Some(policy_id) {
                    assert(v0.external_refs.contains_key((policy.owner@, external_ref->0@)));
                }
            }
        }
        self.release_ref(&policy.owner, policy_id, &policy.external_ref);
        if let Some(v) = &external_ref {
            self.insert_binding(&policy.owner, v, policy_id);
        }
        policy.external_ref = duplicate_opt_string(&external_ref);
        self.put_policy(policy);
        proof {
            assert(self@ == v0.with_external_ref(policy_id, external_ref));
        }
        (
            true,
            Some(ExternalRefUpdatedEvent { policy_id, owner: caller.duplicate(), external_ref }),
        )
    }

    /// Moves a policy of `caller` to the archive, releasing its external reference.
    ///
    /// Answers `false`, changing nothing, when there is no such live policy or `caller` does not
    /// own it.
    pub fn archive_policy(&mut self, caller: &Address, policy_id: u32) -> (r: bool)
        requires
            old(self).wf(),
        ensures
            final(self).wf(),
            r == (old(self)@.policies.contains_key(policy_id) && old(self)@.policies[policy_id].owner@
                == caller@),
            r ==> final(self)@ == old(self)@.with_archived(policy_id),
            !r ==> final(self)@ == old(self)@,
    {
        let policy = match self.get_policy(policy_id) {
            Some(p) => p,
            None => return false,
        };
        if !policy.owner.same_as(caller) {
            return false;
        }
        let ghost v0 = self@;
        self.release_ref(&policy.owner, policy_id, &policy.external_ref);
        let archived = ArchivedPolicy {
            id: policy.id,
            owner: policy.owner,
            name: policy.name,
            external_ref: policy.external_ref,
            coverage_type: policy.coverage_type,
            monthly_premium: policy.monthly_premium,
            coverage_amount: policy.coverage_amount,
            next_payment_date: policy.next_payment_date,
        };
        self.put_archived(archived);
        self.take_policy(policy_id);
        proof {
            lemma_archive_consistent(v0, policy_id);
            assert(self@ == v0.with_archived(policy_id));
        }
        true
    }

    /// Moves an archived policy of `caller` back to the live set, active again, and binds its
    /// external reference.
    ///
    /// Answers `false`, changing nothing, when there is no such archived policy, when `caller`
    /// does not own it, or when its reference is now bound to another policy.
    pub fn restore_policy(&mut self, caller: &Address, policy_id: u32) -> (r: bool)
        requires
            old(self).wf(),
        ensures
            final(self).wf(),
            r == old(self)@.restore_allowed(caller@, policy_id),
            r ==> final(self)@ == old(self)@.with_restored(policy_id),
            !r ==> final(self)@ == old(self)@,
    {
        let archived = match self.get_archived_policy(policy_id) {
            Some(p) => p,
            None => return false,
        };
        if !archived.owner.same_as(caller) {
            return false;
        }
        if let Some(v) = &archived.external_ref {
            match self.lookup_ref(&archived.owner, v) {
                Some(bound) => {
                    if bound != policy_id {
                        return false;
                    }
                },
                None => {},
            }
        }
        let ghost v0 = self@;
        proof {
            lemma_restore_consistent(v0, policy_id);
            if archived.external_ref is Some {
                if v0.ref_binding(archived.owner@, archived.external_ref->0@) == Some(policy_id) {
                    assert(v0.external_refs.contains_key((archived.owner@, archived.external_ref->0@)));
                }
            }
        }
        if let Some(v) = &archived.external_ref {
            self.insert_binding(&archived.owner, v, policy_id);
        }
        let policy = InsurancePolicy {
            id: archived.id,
            owner: archived.owner,
            name: archived.name,
            external_ref: archived.external_ref,
            coverage_type: archived.coverage_type,
            monthly_premium: archived.monthly_premium,
            coverage_amount: archived.coverage_amount,
            active: true,
            next_payment_date: archived.next_payment_date,
        };
        self.put_policy(policy);
        self.take_archived(policy_id);
        proof {
            assert(self@ == v0.with_restored(policy_id));
        }
        true
    }

    /// Records a premium payment by `caller`: the policy is paid up until thirty days after `now`.
    ///
    /// Answers `false`, changing nothing, when there is no such live policy, when `caller` does
    /// not own it, or when it is inactive.
    pub fn pay_premium(&mut self, caller: &Address, policy_id: u32, now: u64) -> (r: bool)
        requires
            old(self).wf(),
            old(self)@.policies.contains_key(policy_id) && payable(
                old(self)@.policies[policy_id],
                caller@,
            ) ==> now <= u64::MAX - PREMIUM_INTERVAL_SECS,
        ensures
            final(self).wf(),
            r == (old(self)@.policies.contains_key(policy_id) && payable(
                old(self)@.policies[policy_id],
                caller@,
            )),
            r ==> final(self)@ == old(self)@.with_premium_paid(
                policy_id,
                (now + PREMIUM_INTERVAL_SECS) as u64,
            ),
            !r ==> final(self)@ == old(self)@,
    {
        let mut policy = match self.get_policy(policy_id) {
            Some(p) => p,
            None => return false,
        };
        if !policy.owner.same_as(caller) || !policy.active {
            return false;
        }
        let ghost v0 = self@;
        policy.next_payment_date = now + PREMIUM_INTERVAL_SECS;
        self.put_policy(policy);
        proof {
            lemma_paid_consistent(v0, policy_id, (now + PREMIUM_INTERVAL_SECS) as u64);
            assert(self@ == v0.with_premium_paid(policy_id, (now + PREMIUM_INTERVAL_SECS) as u64));
        }
        true
    }
}


/// How many entries of `ids` name a live policy that `caller` may pay for (an id named twice
/// counts twice).
pub open spec fn payable_count(policies: Map<u32, InsurancePolicy>, caller: Seq<char>, ids: Seq<u32>) -> nat
    decreases ids.len(),
{
    if ids.len() == 0 {
        0
    } else {
        payable_count(policies, caller, ids.drop_last()) + if policies.contains_key(ids.last())
            && payable(policies[ids.last()], caller) {
            1nat
        } else {
            0nat
        }
    }
}

/// The live policies after paying, up until `date`, every policy named in `ids` that `caller`
/// may pay for.
pub open spec fn batch_paid(policies: Map<u32, InsurancePolicy>, caller: Seq<char>, ids: Seq<u32>, date: u64) -> Map<u32, InsurancePolicy> {
    Map::new(
        |id: u32| policies.contains_key(id),
        |id: u32|
            if ids.contains(id) && payable(policies[id], caller) {
                InsurancePolicy { next_payment_date: date, ..policies[id] }
            } else {
                policies[id]
            },
    )
}

impl InsuranceView {
    /// Sum of the monthly premiums of the active live policies among `ids`.
    pub open spec fn premium_sum(self, ids: Seq<u32>) -> int
        decreases ids.len(),
    {
        if ids.len() == 0 {
            0
        } else {
            self.premium_sum(ids.drop_last()) + if self.policies.contains_key(ids.last())
                && self.policies[ids.last()].active {
                self.policies[ids.last()].monthly_premium as int
            } else {
                0
            }
        }
    }

    /// Every running total of `owner`'s premiums, in the order the policies were created, fits
    /// in an `i128`.
    pub open spec fn premium_sums_fit(self, owner: Seq<char>) -> bool {
        forall|k: int|
            0 <= k <= self.owner_ids(owner).len() ==> i128::MIN <= #[trigger] self.premium_sum(
                self.owner_ids(owner).take(k),
            ) <= i128::MAX
    }

    /// The ids among `ids` greater than `cursor` that name an active live policy, in order.
    pub open spec fn listed_after(self, ids: Seq<u32>, cursor: u32) -> Seq<u32>
        decreases ids.len(),
    {
        if ids.len() == 0 {
            Seq::empty()
        } else {
            let rest = self.listed_after(ids.drop_last(), cursor);
            let id = ids.last();
            if id > cursor && self.policies.contains_key(id) && self.policies[id].active {
                rest.push(id)
            } else {
                rest
            }
        }
    }

    /// The ids of the policies on the page that starts after `cursor`.
    pub open spec fn page_ids(self, owner: Seq<char>, cursor: u32, limit: u32) -> Seq<u32> {
        let all = self.listed_after(self.owner_ids(owner), cursor);
        if all.len() <= clamp_limit_spec(limit) {
            all
        } else {
            all.take(clamp_limit_spec(limit) as int)
        }
    }

    /// The cursor for the next page: the last id on a full page, 0 after a short one.
    pub open spec fn page_next_cursor(self, owner: Seq<char>, cursor: u32, limit: u32) -> u32 {
        let ids = self.page_ids(owner, cursor, limit);
        if ids.len() < clamp_limit_spec(limit) {
            0
        } else {
            ids.last()
        }
    }
}

/// The listing of a prefix of `ids` is a prefix of the listing of `ids`.
proof fn lemma_listed_prefix(v: InsuranceView, ids: Seq<u32>, a: int, cursor: u32)
    requires
        0 <= a <= ids.len(),
    ensures
        v.listed_after(ids.take(a), cursor).len() <= v.listed_after(ids, cursor).len(),
        forall|k: int|
            0 <= k < v.listed_after(ids.take(a), cursor).len() ==> v.listed_after(ids.take(a), cursor)[k]
                == v.listed_after(ids, cursor)[k],
    decreases ids.len(),
{
    if a == ids.len() {
        assert(ids.take(a) =~= ids);
    } else {
        assert(ids.take(a) =~= ids.drop_last().take(a));
        lemma_listed_prefix(v, ids.drop_last(), a, cursor);
    }
}

/// The listing only holds ids of active live policies taken from `ids`, past the cursor.
proof fn lemma_listed_members(v: InsuranceView, ids: Seq<u32>, cursor: u32)
    ensures
        forall|k: int|
            0 <= k < v.listed_after(ids, cursor).len() ==> {
                let id = #[trigger] v.listed_after(ids, cursor)[k];
                &&& ids.contains(id)
                &&& id > cursor
                &&& v.policies.contains_key(id)
                &&& v.policies[id].active
            },
    decreases ids.len(),
{
    if ids.len() > 0 {
        lemma_listed_members(v, ids.drop_last(), cursor);
        assert forall|k: int| 0 <= k < v.listed_after(ids, cursor).len() implies {
            let id = #[trigger] v.listed_after(ids, cursor)[k];
            &&& ids.contains(id)
            &&& id > cursor
            &&& v.policies.contains_key(id)
            &&& v.policies[id].active
        } by {
            let rest = v.listed_after(ids.drop_last(), cursor);
            if k < rest.len() {
                let id = rest[k];
                let j = choose|j: int| 0 <= j < ids.drop_last().len() && ids.drop_last()[j] == id;
                assert(ids[j] == id);
            } else {
                assert(ids[ids.len() - 1] == ids.last());
            }
        }
    }
}

impl Insurance {
    /// Records a premium payment by `caller` for each policy named in `policy_ids` that `caller`
    /// may pay for, and answers how many entries were paid (an id named twice counts twice).
    pub fn batch_pay_premiums(&mut self, caller: &Address, policy_ids: &Vec<u32>, now: u64) -> (r: u32)
        requires
            old(self).wf(),
            now <= u64::MAX - PREMIUM_INTERVAL_SECS,
            policy_ids@.len() <= u32::MAX,
        ensures
            final(self).wf(),
            r == payable_count(old(self)@.policies, caller@, policy_ids@),
            final(self)@ == (InsuranceView {
                policies: batch_paid(
                    old(self)@.policies,
                    caller@,
                    policy_ids@,
                    (now + PREMIUM_INTERVAL_SECS) as u64,
                ),
                ..old(self)@
            }),
    {
        let next_date = now + PREMIUM_INTERVAL_SECS;
        let ghost v0 = self@;
        let mut count: u32 = 0;
        let n = policy_ids.len();
        let mut i: usize = 0;
        proof {
            assert(batch_paid(v0.policies, caller@, policy_ids@.take(0), next_date) =~= v0.policies);
        }
        while i < n
            invariant
                n == policy_ids@.len(),
                n <= u32::MAX,
                i <= n,
                count <= i,
                self.wf(),
                count == payable_count(v0.policies, caller@, policy_ids@.take(i as int)),
                self@ == (InsuranceView {
                    policies: batch_paid(v0.policies, caller@, policy_ids@.take(i as int), next_date),
                    ..v0
                }),
            decreases n - i,
        {
            let id = policy_ids[i];
            let ghost before = self@;
            proof {
                assert(policy_ids@.take(i + 1).drop_last() =~= policy_ids@.take(i as int));
                assert(policy_ids@.take(i + 1).last() == id);
            }
            match self.get_policy(id) {
                Some(p) => {
                    let mut p = p;
                    if p.owner.same_as(caller) && p.active {
                        p.next_payment_date = next_date;
                        self.put_policy(p);
                        count = count + 1;
                        proof {
                            lemma_paid_consistent(before, id, next_date);
                            assert(self@ == before.with_premium_paid(id, next_date));
                            assert(batch_paid(v0.policies, caller@, policy_ids@.take(i + 1), next_date)
                                =~= before.policies.insert(id, InsurancePolicy { next_payment_date: next_date, ..before.policies[id] }));
                        }
                    } else {
                        proof {
                            assert(batch_paid(v0.policies, caller@, policy_ids@.take(i + 1), next_date)
                                =~= before.policies);
                        }
                    }
                },
                None => {
                    proof {
                        assert(batch_paid(v0.policies, caller@, policy_ids@.take(i + 1), next_date)
                            =~= before.policies);
                    }
                },
            }
            i = i + 1;
        }
        proof {
            assert(policy_ids@.take(n as int) =~= policy_ids@);
        }
        count
    }

    /// Sum of the monthly premiums of `owner`'s active live policies.
    pub fn get_total_monthly_premium(&self, owner: &Address) -> (r: i128)
        requires
            self.wf(),
            self@.premium_sums_fit(owner@),
        ensures
            r == self@.premium_sum(self@.owner_ids(owner@)),
    {
        let ghost v = self@;
        match self.find_owner(owner) {
            None => 0,
            Some(k) => {
                proof {
                    lemma_assoc_value(owner_entries(self.owner_index@), k as int);
                }
                let ids = &self.owner_index[k].ids;
                let ghost all = v.owner_ids(owner@);
                assert(ids@ == all);
                let n = ids.len();
                let mut total: i128 = 0;
                let mut i: usize = 0;
                while i < n
                    invariant
                        n == ids@.len(),
                        ids@ == all,
                        all == v.owner_ids(owner@),
                        v == self@,
                        self.wf(),
                        v.premium_sums_fit(owner@),
                        i <= n,
                        total == v.premium_sum(all.take(i as int)),
                    decreases n - i,
                {
                    let id = ids[i];
                    proof {
                        assert(all.take(i + 1).drop_last() =~= all.take(i as int));
                        assert(all.take(i + 1).last() == id);
                        assert(i128::MIN <= v.premium_sum(all.take(i + 1)) <= i128::MAX);
                    }
                    match self.get_policy(id) {
                        Some(p) => {
                            if p.active {
                                total = total + p.monthly_premium;
                            }
                        },
                        None => {},
                    }
                    i = i + 1;
                }
                proof {
                    assert(all.take(n as int) =~= all);
                }
                total
            },
        }
    }

    /// Whether every running total of `owner`'s active premiums fits in an `i128`, the
    /// condition under which `get_total_monthly_premium` can add them up.
    pub fn total_monthly_premium_fits(&self, owner: &Address) -> (b: bool)
        requires
            self.wf(),
        ensures
            b == self@.premium_sums_fit(owner@),
    {
        let ghost v = self@;
        match self.find_owner(owner) {
            None => {
                proof {
                    assert forall|k: int| 0 <= k <= v.owner_ids(owner@).len() implies i128::MIN
                        <= #[trigger] v.premium_sum(v.owner_ids(owner@).take(k)) <= i128::MAX by {
                        assert(v.owner_ids(owner@).take(k) =~= Seq::<u32>::empty());
                    }
                }
                true
            },
            Some(k) => {
                proof {
                    lemma_assoc_value(owner_entries(self.owner_index@), k as int);
                }
                let ids = &self.owner_index[k].ids;
                let ghost all = v.owner_ids(owner@);
                assert(ids@ == all);
                let n = ids.len();
                let mut total: i128 = 0;
                let mut i: usize = 0;
                proof {
                    assert(all.take(0) =~= Seq::<u32>::empty());
                }
                while i < n
                    invariant
                        n == ids@.len(),
                        ids@ == all,
                        all == v.owner_ids(owner@),
                        v == self@,
                        self.wf(),
                        i <= n,
                        total == v.premium_sum(all.take(i as int)),
                        forall|j: int| 0 <= j <= i ==> i128::MIN <= #[trigger] v.premium_sum(all.take(j))
                            <= i128::MAX,
                    decreases n - i,
                {
                    let id = ids[i];
                    proof {
                        assert(all.take(i + 1).drop_last() =~= all.take(i as int));
                        assert(all.take(i + 1).last() == id);
                    }
                    match self.get_policy(id) {
                        Some(p) => {
                            if p.active {
                                match total.checked_add(p.monthly_premium) {
                                    Some(t) => {
                                        total = t;
                                    },
                                    None => {
                                        assert(!(i128::MIN <= v.premium_sum(all.take(i + 1))
                                            <= i128::MAX));
                                        return false;
                                    },
                                }
                            }
                        },
                        None => {},
                    }
                    i = i + 1;
                }
                proof {
                    assert(all.take(n as int) =~= all);
                }
                true
            },
        }
    }

    /// A page of `owner`'s active policies with ids greater than `cursor`, oldest first, at most
    /// `clamp_limit(limit)` of them; `next_cursor` is the last id on a full page and 0 otherwise.
    pub fn get_active_policies(&self, owner: &Address, cursor: u32, limit: u32) -> (page: PolicyPage)
        requires
            self.wf(),
        ensures
            page.items@ == self@.page_ids(owner@, cursor, limit).map_values(
                |id: u32| self@.policies[id],
            ),
            page.count == self@.page_ids(owner@, cursor, limit).len(),
            page.next_cursor == self@.page_next_cursor(owner@, cursor, limit),
    {
        let limit = clamp_limit(limit);
        let ghost v = self@;
        let ghost all = v.owner_ids(owner@);
        let ghost listed = v.listed_after(all, cursor);
        let mut items: Vec<InsurancePolicy> = Vec::new();
        let mut next_cursor: u32 = 0;
        let k_opt = self.find_owner(owner);
        let empty: Vec<u32> = Vec::new();
        let ids: &Vec<u32> = match k_opt {
            Some(k) => {
                proof {
                    lemma_assoc_value(owner_entries(self.owner_index@), k as int);
                }
                &self.owner_index[k].ids
            },
            None => {
                proof {
                    assert(all =~= empty@);
                }
                &empty
            },
        };
        assert(ids@ == all);
        let n = ids.len();
        let mut i: usize = 0;
        let mut full = false;
        while i < n
            invariant_except_break
                !full,
                items@.len() < limit,
            invariant
                n == ids@.len(),
                ids@ == all,
                v == self@,
                self.wf(),
                all == v.owner_ids(owner@),
                listed == v.listed_after(all, cursor),
                1 <= limit <= MAX_PAGE_LIMIT,
                i <= n,
                items@ == v.listed_after(all.take(i as int), cursor).map_values(
                    |id: u32| v.policies[id],
                ),
                items@.len() > 0 ==> next_cursor == v.listed_after(all.take(i as int), cursor).last(),
            ensures
                items@ == v.listed_after(all.take(i as int), cursor).map_values(
                    |id: u32| v.policies[id],
                ),
                items@.len() > 0 ==> next_cursor == v.listed_after(all.take(i as int), cursor).last(),
                items@.len() <= limit,
                items@.len() < limit ==> i == n,
            decreases n - i,
        {
            let id = ids[i];
            let ghost before = v.listed_after(all.take(i as int), cursor);
            proof {
                assert(all.take(i + 1).drop_last() =~= all.take(i as int));
                assert(all.take(i + 1).last() == id);
            }
            i = i + 1;
            if id > cursor {
                match self.get_policy(id) {
                    Some(p) => {
                        if p.active {
                            items.push(p);
                            next_cursor = id;
                            proof {
                                assert(items@ =~= before.push(id).map_values(|x: u32| v.policies[x]));
                            }
                            if items.len() >= limit as usize {
                                full = true;
                                break;
                            }
                        }
                    },
                    None => {},
                }
            }
        }
        let ghost got = v.listed_after(all.take(i as int), cursor);
        proof {
            lemma_listed_prefix(v, all, i as int, cursor);
            if i == n {
                assert(all.take(n as int) =~= all);
            }
            let page = v.page_ids(owner@, cursor, limit);
            assert(got.len() == items@.len());
            if items@.len() < limit {
                assert(got =~= listed);
                assert(page =~= got);
            } else {
                assert(page =~= got);
            }
        }
        let count = items.len() as u32;
        let out_cursor = if count < limit { 0 } else { next_cursor };
        PolicyPage { items, next_cursor: out_cursor, count }
    }
}


// ---------------------------------------------------------------------------
// Laws
// ---------------------------------------------------------------------------

/// Among an owner's active policies, no two carry the same external reference.
pub proof fn lemma_active_refs_unique(v: InsuranceView, a: u32, b: u32)
    requires
        v.consistent(),
        v.policies.contains_key(a),
        v.policies.contains_key(b),
        v.policies[a].active,
        v.policies[b].active,
        v.policies[a].external_ref is Some,
        v.policies[b].external_ref is Some,
        v.policies[a].owner@ == v.policies[b].owner@,
        v.policies[a].external_ref->0@ == v.policies[b].external_ref->0@,
    ensures
        a == b,
{
}

/// After a policy is created with a reference, looking the reference up under its owner gives
/// the new policy, and reading the policy back gives what was stored.
pub proof fn lemma_create_then_lookup(v: InsuranceView, p: InsurancePolicy)
    requires
        p.external_ref is Some,
    ensures
        v.with_created(p).ref_binding(p.owner@, p.external_ref->0@) == Some(p.id),
        v.with_created(p).policies[p.id] == p,
{
}

/// Deactivating an active policy frees its reference: the owner may use it again for a new policy.
pub proof fn lemma_deactivate_frees_ref(v: InsuranceView, id: u32)
    requires
        v.consistent(),
        v.policies.contains_key(id),
        v.policies[id].active,
        v.policies[id].external_ref is Some,
    ensures
        v.with_deactivated(id).ref_binding(v.policies[id].owner@, v.policies[id].external_ref->0@)
            is None,
        v.with_deactivated(id).ref_claim_error(
            v.policies[id].owner@,
            opt_view(v.policies[id].external_ref),
            None,
        ) is None,
{
}

/// Archiving a policy frees its reference.
pub proof fn lemma_archive_frees_ref(v: InsuranceView, id: u32)
    requires
        v.consistent(),
        v.policies.contains_key(id),
        v.policies[id].external_ref is Some,
        v.ref_binding(v.policies[id].owner@, v.policies[id].external_ref->0@) == Some(id),
    ensures
        v.with_archived(id).ref_binding(v.policies[id].owner@, v.policies[id].external_ref->0@)
            is None,
{
}

/// Clearing an active policy's reference frees it: the owner may use it again for a new policy.
pub proof fn lemma_clear_ref_frees_ref(v: InsuranceView, id: u32)
    requires
        v.consistent(),
        v.policies.contains_key(id),
        v.policies[id].active,
        v.policies[id].external_ref is Some,
    ensures
        v.with_external_ref(id, None).ref_binding(
            v.policies[id].owner@,
            v.policies[id].external_ref->0@,
        ) is None,
        v.with_external_ref(id, None).ref_claim_error(
            v.policies[id].owner@,
            opt_view(v.policies[id].external_ref),
            None,
        ) is None,
{
    let p = v.policies[id];
    let k = (p.owner@, p.external_ref->0@);
    if v.external_refs.contains_key(k) {
        assert(v.policies.contains_key(v.external_refs[k]));
    }
}

/// Archiving an active policy and restoring it gives back the state before the archiving.
pub proof fn lemma_archive_restore_roundtrip(v: InsuranceView, id: u32)
    requires
        v.consistent(),
        v.policies.contains_key(id),
        v.policies[id].active,
    ensures
        v.with_archived(id).restore_allowed(v.policies[id].owner@, id),
        v.with_archived(id).with_restored(id) == v,
{
    let p = v.policies[id];
    let w = v.with_archived(id);
    let u = w.with_restored(id);
    assert(restored_form(archived_form(p)) == p);
    assert(u.policies =~= v.policies);
    assert(u.archived =~= v.archived);
    if p.external_ref is Some {
        let k = (p.owner@, p.external_ref->0@);
        assert(v.ref_binding(k.0, k.1) == Some(id));
        assert(u.external_refs =~= v.external_refs);
    } else {
        assert(u.external_refs =~= v.external_refs);
    }
}

/// A policy once archived comes back when its owner restores it at any later time at which no
/// other policy of the owner holds its reference: active, with what it had when archived, out
/// of the archive, and with its reference bound to it again.
pub proof fn lemma_restore_archived(w: InsuranceView, id: u32, p: InsurancePolicy)
    requires
        w.consistent(),
        w.archived.contains_key(id),
        w.archived[id] == archived_form(p),
        p.external_ref is Some ==> (w.ref_binding(p.owner@, p.external_ref->0@) is None
            || w.ref_binding(p.owner@, p.external_ref->0@) == Some(id)),
    ensures
        w.restore_allowed(p.owner@, id),
        w.with_restored(id).policies[id] == (InsurancePolicy { active: true, ..p }),
        !w.with_restored(id).archived.contains_key(id),
        p.external_ref is Some ==> w.with_restored(id).ref_binding(p.owner@, p.external_ref->0@)
            == Some(id),
{
}

/// Archiving a policy keeps it in the archive as it was, apart from the active flag.
pub proof fn lemma_archive_keeps_policy(v: InsuranceView, id: u32)
    requires
        v.policies.contains_key(id),
    ensures
        v.with_archived(id).archived.contains_key(id),
        v.with_archived(id).archived[id] == archived_form(v.policies[id]),
        !v.with_archived(id).policies.contains_key(id),
{
}

/// Whether entry `id` of a batch is one that gets paid: a live policy that `caller` may pay for.
pub open spec fn pays_for(policies: Map<u32, InsurancePolicy>, caller: Seq<char>, id: u32) -> bool {
    policies.contains_key(id) && policies[id].owner@ == caller && policies[id].active
}

proof fn lemma_payable_count_filter(policies: Map<u32, InsurancePolicy>, caller: Seq<char>, ids: Seq<u32>)
    ensures
        payable_count(policies, caller, ids) == ids.filter(|id: u32| pays_for(policies, caller, id)).len(),
    decreases ids.len(),
{
    reveal(Seq::filter);
    if ids.len() > 0 {
        lemma_payable_count_filter(policies, caller, ids.drop_last());
    }
}

/// Paying a batch answers how many entries of the list, the last one included, name a live
/// active policy of the caller, and pays up to `date` exactly the policies so named; every
/// other field, and every other policy, stays as it was.
pub proof fn lemma_batch_pay(policies: Map<u32, InsurancePolicy>, caller: Seq<char>, ids: Seq<u32>, date: u64)
    ensures
        payable_count(policies, caller, ids) == ids.filter(|id: u32| pays_for(policies, caller, id)).len(),
        payable_count(policies, caller, ids) <= ids.len(),
        batch_paid(policies, caller, ids, date).dom() == policies.dom(),
        forall|k: int|
            0 <= k < ids.len() && pays_for(policies, caller, #[trigger] ids[k]) ==> batch_paid(
                policies,
                caller,
                ids,
                date,
            )[ids[k]] == (InsurancePolicy { next_payment_date: date, ..policies[ids[k]] }),
        forall|id: u32|
            policies.contains_key(id) && !(ids.contains(id) && pays_for(policies, caller, id))
                ==> #[trigger] batch_paid(policies, caller, ids, date)[id] == policies[id],
{
    lemma_payable_count_filter(policies, caller, ids);
    ids.lemma_filter_len(|id: u32| pays_for(policies, caller, id));
    assert(batch_paid(policies, caller, ids, date).dom() =~= policies.dom());
    assert forall|k: int|
        0 <= k < ids.len() && pays_for(policies, caller, #[trigger] ids[k]) implies batch_paid(
            policies,
            caller,
            ids,
            date,
        )[ids[k]] == (InsurancePolicy { next_payment_date: date, ..policies[ids[k]] }) by {
        assert(ids.contains(ids[k]));
    }
}

/// A batch of one payable policy counts one and pays it as `pay_premium` does.
pub proof fn lemma_batch_of_one(v: InsuranceView, caller: Seq<char>, id: u32, date: u64)
    requires
        v.policies.contains_key(id),
        payable(v.policies[id], caller),
    ensures
        payable_count(v.policies, caller, seq![id]) == 1,
        batch_paid(v.policies, caller, seq![id], date) == v.with_premium_paid(id, date).policies,
{
    assert(seq![id].drop_last() =~= Seq::<u32>::empty());
    assert(payable_count(v.policies, caller, Seq::<u32>::empty()) == 0);
    assert(seq![id].last() == id);
    assert(seq![id].contains(id)) by {
        assert(seq![id][0] == id);
    }
    assert(batch_paid(v.policies, caller, seq![id], date) =~= v.with_premium_paid(id, date).policies);
}

/// A requested page size between 1 and `MAX_PAGE_LIMIT` is honoured as it is; no page is ever
/// larger than `MAX_PAGE_LIMIT`, and asking for 0 gives `DEFAULT_PAGE_LIMIT`.
pub proof fn lemma_page_size(v: InsuranceView, owner: Seq<char>, cursor: u32, limit: u32)
    ensures
        1 <= limit <= MAX_PAGE_LIMIT ==> clamp_limit_spec(limit) == limit,
        limit == 0 ==> clamp_limit_spec(limit) == DEFAULT_PAGE_LIMIT,
        1 <= clamp_limit_spec(limit) <= MAX_PAGE_LIMIT,
        1 <= limit <= MAX_PAGE_LIMIT ==> v.page_ids(owner, cursor, limit).len() == if v.listed_after(
            v.owner_ids(owner),
            cursor,
        ).len() < limit {
            v.listed_after(v.owner_ids(owner), cursor).len()
        } else {
            limit as nat
        },
        v.page_ids(owner, cursor, limit).len() <= MAX_PAGE_LIMIT,
        v.page_ids(owner, cursor, limit) == v.listed_after(v.owner_ids(owner), cursor).take(
            v.page_ids(owner, cursor, limit).len() as int,
        ),
{
    let all = v.listed_after(v.owner_ids(owner), cursor);
    if all.len() <= clamp_limit_spec(limit) {
        assert(all.take(all.len() as int) =~= all);
    }
}

/// The owner of a live policy, active or not, who asks to give it a valid reference that no
/// other of the owner's policies holds (or to clear its reference) is answered `true`; the
/// request changes the policy exactly when the reference differs, and afterwards the policy
/// carries the new reference, bound to it, with every other field and every other policy kept.
pub proof fn lemma_set_ref_taken(v: InsuranceView, caller: Seq<char>, id: u32, r: Option<String>)
    requires
        v.consistent(),
        v.policies.contains_key(id),
        v.policies[id].owner@ == caller,
        r is Some ==> valid_external_ref(r->0@) && (v.ref_binding(caller, r->0@) is None
            || v.ref_binding(caller, r->0@) == Some(id)),
    ensures
        v.set_external_ref_answer(caller, id, opt_view(r)) == Ok::<bool, InsuranceError>(true),
        v.set_external_ref_changes(caller, id, opt_view(r)) == (opt_view(r) != opt_view(
            v.policies[id].external_ref,
        )),
        v.with_external_ref(id, r).policies[id] == (InsurancePolicy {
            external_ref: r,
            ..v.policies[id]
        }),
        r is Some ==> v.with_external_ref(id, r).ref_binding(caller, r->0@) == Some(id),
        forall|j: u32|
            j != id && v.policies.contains_key(j) ==> #[trigger] v.with_external_ref(id, r).policies[j]
                == v.policies[j],
        v.with_external_ref(id, r).policies.dom() == v.policies.dom(),
        v.with_external_ref(id, r).archived == v.archived,
{
    assert(v.with_external_ref(id, r).policies.dom() =~= v.policies.dom());
}

/// Deactivating a policy changes only its active flag: its premium, coverage, dates, name and
/// reference stay, and so do every other policy, the archive, the owner lists and the id
/// counter.
pub proof fn lemma_deactivate_only_flag(v: InsuranceView, id: u32)
    requires
        v.policies.contains_key(id),
    ensures
        v.with_deactivated(id).policies.contains_key(id),
        !v.with_deactivated(id).policies[id].active,
        v.with_deactivated(id).policies[id].id == v.policies[id].id,
        v.with_deactivated(id).policies[id].owner == v.policies[id].owner,
        v.with_deactivated(id).policies[id].name == v.policies[id].name,
        v.with_deactivated(id).policies[id].external_ref == v.policies[id].external_ref,
        v.with_deactivated(id).policies[id].coverage_type == v.policies[id].coverage_type,
        v.with_deactivated(id).policies[id].monthly_premium == v.policies[id].monthly_premium,
        v.with_deactivated(id).policies[id].coverage_amount == v.policies[id].coverage_amount,
        v.with_deactivated(id).policies[id].next_payment_date == v.policies[id].next_payment_date,
        forall|j: u32|
            j != id && v.policies.contains_key(j) ==> #[trigger] v.with_deactivated(id).policies[j]
                == v.policies[j],
        v.with_deactivated(id).policies.dom() == v.policies.dom(),
        v.with_deactivated(id).archived == v.archived,
        v.with_deactivated(id).owner_policies == v.owner_policies,
        v.with_deactivated(id).next_id == v.next_id,
{
    assert(v.with_deactivated(id).policies.dom() =~= v.policies.dom());
}

/// Deactivating an active policy, archiving it and restoring it gives back the policy exactly
/// as it was before the deactivation, premium and all, with its reference bound to it again.
pub proof fn lemma_deactivate_archive_restore(v: InsuranceView, id: u32)
    requires
        v.consistent(),
        v.policies.contains_key(id),
        v.policies[id].active,
    ensures
        v.with_deactivated(id).with_archived(id).restore_allowed(v.policies[id].owner@, id),
        v.with_deactivated(id).with_archived(id).with_restored(id).policies[id] == v.policies[id],
        v.policies[id].external_ref is Some ==> v.with_deactivated(id).with_archived(id).with_restored(
            id,
        ).ref_binding(v.policies[id].owner@, v.policies[id].external_ref->0@) == Some(id),
{
    let p = v.policies[id];
    let w = v.with_deactivated(id);
    lemma_deactivate_consistent(v, id);
    lemma_archive_consistent(w, id);
    let u = w.with_archived(id);
    let q = w.policies[id];
    assert(q == (InsurancePolicy { active: false, ..p }));
    if p.external_ref is Some {
        let k = (p.owner@, p.external_ref->0@);
        lemma_released(v, p.owner@, id, opt_view(p.external_ref));
        assert(!w.external_refs.contains_key(k));
        lemma_released(w, q.owner@, id, opt_view(q.external_ref));
        assert(!u.external_refs.contains_key(k));
    }
    lemma_restore_archived(u, id, q);
    assert((InsurancePolicy { active: true, ..q }) == p);
}

/// Creating a policy stores it under its id, counts that id as the last handed out, lists it
/// last among its owner's policies, binds its reference if it has one, and leaves every other
/// policy, the archive and the other owners' lists as they were.
pub proof fn lemma_create_effects(v: InsuranceView, p: InsurancePolicy)
    ensures
        v.with_created(p).policies.contains_key(p.id),
        v.with_created(p).policies[p.id] == p,
        v.with_created(p).next_id == p.id,
        v.with_created(p).owner_ids(p.owner@) == v.owner_ids(p.owner@).push(p.id),
        forall|o: Seq<char>| o != p.owner@ ==> #[trigger] v.with_created(p).owner_ids(o) == v.owner_ids(o),
        forall|j: u32| j != p.id && v.policies.contains_key(j) ==> #[trigger] v.with_created(p).policies[j]
            == v.policies[j],
        v.with_created(p).archived == v.archived,
        p.external_ref is Some ==> v.with_created(p).ref_binding(p.owner@, p.external_ref->0@) == Some(
            p.id,
        ),
{
}

/// `premium_sum` over a list without repeats, once `id` is deactivated: less by the policy's
/// premium if the list names it, the same otherwise.
proof fn lemma_premium_sum_deactivated(v: InsuranceView, ids: Seq<u32>, id: u32)
    requires
        v.policies.contains_key(id),
        v.policies[id].active,
        ids.no_duplicates(),
    ensures
        v.with_deactivated(id).premium_sum(ids) == v.premium_sum(ids) - if ids.contains(id) {
            v.policies[id].monthly_premium as int
        } else {
            0
        },
    decreases ids.len(),
{
    if ids.len() > 0 {
        let s = ids.drop_last();
        assert(s.no_duplicates());
        lemma_premium_sum_deactivated(v, s, id);
        if ids.last() == id {
            assert(!s.contains(id)) by {
                if s.contains(id) {
                    let j = choose|j: int| 0 <= j < s.len() && s[j] == id;
                    assert(ids[j] == ids[ids.len() - 1]);
                }
            }
            assert(ids.contains(id)) by {
                assert(ids[ids.len() - 1] == id);
            }
        } else {
            assert(ids.contains(id) == s.contains(id)) by {
                if ids.contains(id) {
                    let j = choose|j: int| 0 <= j < ids.len() && ids[j] == id;
                    assert(s[j] == id);
                }
                if s.contains(id) {
                    let j = choose|j: int| 0 <= j < s.len() && s[j] == id;
                    assert(ids[j] == id);
                }
            }
        }
    }
}

/// Deactivating one of an owner's active policies lowers the owner's total monthly premium by
/// exactly that policy's premium.
pub proof fn lemma_deactivate_lowers_total(v: InsuranceView, id: u32)
    requires
        v.consistent(),
        v.policies.contains_key(id),
        v.policies[id].active,
    ensures
        v.with_deactivated(id).premium_sum(v.owner_ids(v.policies[id].owner@)) == v.premium_sum(
            v.owner_ids(v.policies[id].owner@),
        ) - v.policies[id].monthly_premium,
{
    let o = v.policies[id].owner@;
    let ids = v.owner_ids(o);
    assert(ids.contains(id));
    assert(increasing(ids));
    assert(ids.no_duplicates()) by {
        assert forall|a: int, b: int| 0 <= a < ids.len() && 0 <= b < ids.len() && a != b implies ids[a]
            != ids[b] by {
            if a < b {
                assert(ids[a] < ids[b]);
            } else {
                assert(ids[b] < ids[a]);
            }
        }
    }
    lemma_premium_sum_deactivated(v, ids, id);
    assert(v.with_deactivated(id).owner_ids(o) == ids);
}

/// Paying a premium moves only the policy's next payment date, to the date given; every other
/// field, every other policy, the archive and the reference bindings stay.
pub proof fn lemma_premium_paid_effects(v: InsuranceView, id: u32, date: u64)
    requires
        v.policies.contains_key(id),
    ensures
        v.with_premium_paid(id, date).policies[id] == (InsurancePolicy {
            next_payment_date: date,
            ..v.policies[id]
        }),
        v.with_premium_paid(id, date).policies[id].next_payment_date == date,
        v.with_premium_paid(id, date).policies[id].monthly_premium == v.policies[id].monthly_premium,
        v.with_premium_paid(id, date).policies[id].active == v.policies[id].active,
        v.with_premium_paid(id, date).policies.dom() == v.policies.dom(),
        forall|j: u32| j != id && v.policies.contains_key(j) ==> #[trigger] v.with_premium_paid(
            id,
            date,
        ).policies[j] == v.policies[j],
        v.with_premium_paid(id, date).archived == v.archived,
        v.with_premium_paid(id, date).external_refs == v.external_refs,
{
    assert(v.with_premium_paid(id, date).policies.dom() =~= v.policies.dom());
}

/// Listing past a cursor that ids beyond `n` all exceed: nothing at or below `n` shows up.
proof fn lemma_listed_empty(v: InsuranceView, ids: Seq<u32>, n: u32)
    requires
        forall|k: int| 0 <= k < ids.len() ==> ids[k] <= n,
    ensures
        v.listed_after(ids, n) =~= Seq::<u32>::empty(),
    decreases ids.len(),
{
    if ids.len() > 0 {
        lemma_listed_empty(v, ids.drop_last(), n);
    }
}

/// For increasing ids, listing past the `m`-th listed id continues the listing where it stopped.
proof fn lemma_listed_resume(v: InsuranceView, ids: Seq<u32>, c: u32, m: int)
    requires
        increasing(ids),
        0 <= m < v.listed_after(ids, c).len(),
    ensures
        v.listed_after(ids, v.listed_after(ids, c)[m]) =~= v.listed_after(ids, c).skip(m + 1),
    decreases ids.len(),
{
    let l = v.listed_after(ids, c);
    let n = l[m];
    let s = ids.drop_last();
    let x = ids.last();
    let ls = v.listed_after(s, c);
    lemma_listed_members(v, s, c);
    lemma_listed_members(v, ids, c);
    assert(increasing(s));
    if x > c && v.policies.contains_key(x) && v.policies[x].active {
        if m == l.len() - 1 {
            assert(n == x);
            assert forall|k: int| 0 <= k < s.len() implies s[k] <= n by {
                assert(ids[k] < ids[ids.len() - 1]);
            }
            lemma_listed_empty(v, s, n);
        } else {
            assert(ls[m] == n);
            lemma_listed_resume(v, s, c, m);
            let j = choose|j: int| 0 <= j < s.len() && s[j] == n;
            assert(ids[j] < ids[ids.len() - 1]);
            assert(v.listed_after(ids, n) =~= v.listed_after(s, n).push(x));
        }
    } else {
        assert(ls[m] == n);
        lemma_listed_resume(v, s, c, m);
        assert(n > c);
    }
}

/// Paging is complete and stable: the active policies past `cursor` are this page followed by
/// everything past the page's `next_cursor`; a page with `next_cursor` 0 holds all of them.
pub proof fn lemma_pages_cover(v: InsuranceView, owner: Seq<char>, cursor: u32, limit: u32)
    requires
        v.consistent(),
    ensures
        v.page_next_cursor(owner, cursor, limit) == 0 ==> v.page_ids(owner, cursor, limit) == v.listed_after(
            v.owner_ids(owner),
            cursor,
        ),
        v.page_next_cursor(owner, cursor, limit) != 0 ==> v.listed_after(v.owner_ids(owner), cursor)
            == v.page_ids(owner, cursor, limit) + v.listed_after(
            v.owner_ids(owner),
            v.page_next_cursor(owner, cursor, limit),
        ),
{
    let ids = v.owner_ids(owner);
    let all = v.listed_after(ids, cursor);
    let lim = clamp_limit_spec(limit);
    let page = v.page_ids(owner, cursor, limit);
    assert(increasing(ids));
    lemma_listed_members(v, ids, cursor);
    if page.len() >= lim {
        let m = lim - 1;
        assert(page[m as int] == all[m as int]);
        lemma_listed_resume(v, ids, cursor, m as int);
        assert(all =~= page + all.skip(m + 1));
    }
}

/// Every policy on a page is an active live policy of the owner, with an id past the cursor.
pub proof fn lemma_page_items_owned(v: InsuranceView, owner: Seq<char>, cursor: u32, limit: u32)
    requires
        v.consistent(),
    ensures
        forall|k: int|
            0 <= k < v.page_ids(owner, cursor, limit).len() ==> {
                let id = #[trigger] v.page_ids(owner, cursor, limit)[k];
                &&& id > cursor
                &&& v.policies.contains_key(id)
                &&& v.policies[id].active
                &&& v.policies[id].owner@ == owner
            },
        v.page_ids(owner, cursor, limit).len() <= clamp_limit_spec(limit),
{
    let ids = v.owner_ids(owner);
    let all = v.listed_after(ids, cursor);
    lemma_listed_members(v, ids, cursor);
    assert forall|k: int| 0 <= k < v.page_ids(owner, cursor, limit).len() implies {
        let id = #[trigger] v.page_ids(owner, cursor, limit)[k];
        &&& id > cursor
        &&& v.policies.contains_key(id)
        &&& v.policies[id].active
        &&& v.policies[id].owner@ == owner
    } by {
        let id = v.page_ids(owner, cursor, limit)[k];
        assert(all[k] == id);
        let j = choose|j: int| 0 <= j < ids.len() && ids[j] == id;
        assert(v.owner_policies.contains_key(owner));
        assert(v.owner_policies[owner][j] == id);
    }
}


/// The ids listed by walking `owner`'s pages from `cursor`: each page, then the pages from its
/// `next_cursor`, up to the first page whose `next_cursor` is 0; `None` when that takes more
/// than `pages` pages.
pub open spec fn page_walk(v: InsuranceView, owner: Seq<char>, cursor: u32, limit: u32, pages: nat) -> Option<
    Seq<u32>,
>
    decreases pages,
{
    if pages == 0 {
        None
    } else {
        let page = v.page_ids(owner, cursor, limit);
        let next = v.page_next_cursor(owner, cursor, limit);
        if next == 0 {
            Some(page)
        } else {
            match page_walk(v, owner, next, limit, (pages - 1) as nat) {
                Some(rest) => Some(page + rest),
                None => None,
            }
        }
    }
}

/// All of `owner`'s active policies, as the listing from cursor 0 gives them.
pub open spec fn active_listing(v: InsuranceView, owner: Seq<char>) -> Seq<u32> {
    v.listed_after(v.owner_ids(owner), 0)
}

/// Walking the pages from `cursor` ends within `m / clamp_limit(limit) + 1` pages, `m` being
/// the number of active policies past the cursor, and lists exactly those policies.
proof fn lemma_walk_from(v: InsuranceView, owner: Seq<char>, cursor: u32, limit: u32)
    requires
        v.consistent(),
    ensures
        page_walk(
            v,
            owner,
            cursor,
            limit,
            (v.listed_after(v.owner_ids(owner), cursor).len() as int / (clamp_limit_spec(limit) as int) + 1) as nat,
        ) == Some(v.listed_after(v.owner_ids(owner), cursor)),
    decreases v.listed_after(v.owner_ids(owner), cursor).len(),
{
    let ids = v.owner_ids(owner);
    let all = v.listed_after(ids, cursor);
    let lim = clamp_limit_spec(limit) as int;
    let m = all.len() as int;
    let page = v.page_ids(owner, cursor, limit);
    let next = v.page_next_cursor(owner, cursor, limit);
    let fuel = (m / lim + 1) as nat;
    assert(lim >= 1);
    lemma_pages_cover(v, owner, cursor, limit);
    if next != 0 {
        assert(page.len() == lim);
        let rest = v.listed_after(ids, next);
        assert(all.len() == page.len() + rest.len());
        lemma_div_plus_one(m - lim, lim);
        assert(m / lim == (m - lim) / lim + 1);
        lemma_walk_from(v, owner, next, limit);
        assert(page_walk(v, owner, next, limit, (fuel - 1) as nat) == Some(rest));
        assert(page + rest == all);
    }
}

/// Within an increasing list, the listing past a cursor is increasing too.
proof fn lemma_listed_increasing(v: InsuranceView, ids: Seq<u32>, cursor: u32)
    requires
        increasing(ids),
    ensures
        increasing(v.listed_after(ids, cursor)),
    decreases ids.len(),
{
    if ids.len() > 0 {
        let s = ids.drop_last();
        assert(increasing(s));
        lemma_listed_increasing(v, s, cursor);
        lemma_listed_members(v, s, cursor);
        let l = v.listed_after(s, cursor);
        assert forall|k: int| 0 <= k < l.len() implies l[k] < ids.last() by {
            let j = choose|j: int| 0 <= j < s.len() && s[j] == l[k];
            assert(ids[j] < ids[ids.len() - 1]);
        }
    }
}

/// An id of `ids` past the cursor that names an active live policy is listed.
proof fn lemma_listed_complete(v: InsuranceView, ids: Seq<u32>, cursor: u32, id: u32)
    requires
        ids.contains(id),
        id > cursor,
        v.policies.contains_key(id),
        v.policies[id].active,
    ensures
        v.listed_after(ids, cursor).contains(id),
    decreases ids.len(),
{
    let s = ids.drop_last();
    if ids.last() == id {
        assert(v.listed_after(ids, cursor).last() == id);
    } else {
        let j = choose|j: int| 0 <= j < ids.len() && ids[j] == id;
        assert(s[j] == id);
        lemma_listed_complete(v, s, cursor, id);
        let k = choose|k: int| 0 <= k < v.listed_after(s, cursor).len() && v.listed_after(s, cursor)[k] == id;
        let l = v.listed_after(ids, cursor);
        if ids.last() > cursor && v.policies.contains_key(ids.last()) && v.policies[ids.last()].active {
            assert(l[k] == id);
        } else {
            assert(l[k] == id);
        }
    }
}

/// Paging through all of an owner's active policies, starting at cursor 0 and going on from
/// each page's `next_cursor` until a page answers 0, ends within n / clamp_limit(limit) + 1
/// pages, n being the number of the owner's active policies, and lists each of them exactly
/// once, in ascending id order.
pub proof fn lemma_page_walk_complete(v: InsuranceView, owner: Seq<char>, limit: u32)
    requires
        v.consistent(),
    ensures
        page_walk(
            v,
            owner,
            0,
            limit,
            (active_listing(v, owner).len() as int / (clamp_limit_spec(limit) as int) + 1) as nat,
        ) == Some(active_listing(v, owner)),
        increasing(active_listing(v, owner)),
        forall|id: u32|
            #[trigger] active_listing(v, owner).contains(id) <==> (v.policies.contains_key(id)
                && v.policies[id].active && v.policies[id].owner@ == owner),
{
    let ids = v.owner_ids(owner);
    let all = active_listing(v, owner);
    lemma_walk_from(v, owner, 0, limit);
    assert(increasing(ids));
    lemma_listed_increasing(v, ids, 0);
    lemma_listed_members(v, ids, 0);
    assert forall|id: u32| #[trigger] all.contains(id) <==> (v.policies.contains_key(id)
        && v.policies[id].active && v.policies[id].owner@ == owner) by {
        if all.contains(id) {
            let k = choose|k: int| 0 <= k < all.len() && all[k] == id;
            assert(all[k] == id);
            let j = choose|j: int| 0 <= j < ids.len() && ids[j] == id;
            assert(v.owner_policies.contains_key(owner));
            assert(v.owner_policies[owner][j] == id);
        }
        if v.policies.contains_key(id) && v.policies[id].active && v.policies[id].owner@ == owner {
            assert(v.owner_ids(v.policies[id].owner@).contains(id));
            lemma_listed_complete(v, ids, 0, id);
        }
    }
}

// ---------------------------------------------------------------------------
// Stored parts
// ---------------------------------------------------------------------------

/// The state in the pieces that contract storage keeps: live and archived policies, the owner
/// lists and the reference bindings, each a list with no repeated key.
#[derive(Clone, Debug)]
pub struct InsuranceParts {
    pub pause_admin: Option<Address>,
    pub next_id: u32,
    pub policies: Vec<InsurancePolicy>,
    pub archived: Vec<ArchivedPolicy>,
    pub owner_index: Vec<OwnerPolicies>,
    pub ref_index: Vec<ExternalRefBinding>,
}

impl View for InsuranceParts {
    type V = InsuranceView;

    open spec fn view(&self) -> InsuranceView {
        InsuranceView {
            pause_admin: match self.pause_admin {
                Some(a) => Some(a@),
                None => None,
            },
            next_id: self.next_id,
            policies: assoc_map(policy_entries(self.policies@)),
            archived: assoc_map(archived_entries(self.archived@)),
            owner_policies: assoc_map(owner_entries(self.owner_index@)),
            external_refs: assoc_map(ref_entries(self.ref_index@)),
        }
    }
}

impl InsuranceParts {
    /// No list repeats a key, and the state they describe is consistent.
    pub open spec fn well_formed(&self) -> bool {
        &&& keys_distinct(policy_entries(self.policies@))
        &&& keys_distinct(archived_entries(self.archived@))
        &&& keys_distinct(owner_entries(self.owner_index@))
        &&& keys_distinct(ref_entries(self.ref_index@))
        &&& self@.consistent()
    }
}

fn vec_contains(v: &Vec<u32>, x: u32) -> (b: bool)
    ensures
        b == v@.contains(x),
{
    let n = v.len();
    let mut i: usize = 0;
    while i < n
        invariant
            n == v@.len(),
            i <= n,
            forall|j: int| 0 <= j < i ==> v@[j] != x,
        decreases n - i,
    {
        if v[i] == x {
            return true;
        }
        i = i + 1;
    }
    false
}

fn is_increasing(v: &Vec<u32>) -> (b: bool)
    ensures
        b == increasing(v@),
{
    let n = v.len();
    if n == 0 {
        return true;
    }
    let mut i: usize = 1;
    while i < n
        invariant
            n == v@.len(),
            1 <= i <= n,
            increasing(v@.take(i as int)),
        decreases n - i,
    {
        if v[i - 1] >= v[i] {
            assert(!increasing(v@));
            return false;
        }
        proof {
            assert forall|a: int, b: int| 0 <= a < b < i + 1 implies #[trigger] v@.take(i + 1)[a] < #[trigger] v@.take(
                i + 1,
            )[b] by {
                if b == i && a < i - 1 {
                    assert(v@.take(i as int)[a] < v@.take(i as int)[i - 1]);
                }
                if b < i {
                    assert(v@.take(i as int)[a] < v@.take(i as int)[b]);
                }
            }
        }
        i = i + 1;
    }
    assert(v@.take(n as int) =~= v@);
    true
}

impl Insurance {
    /// Hands over the stored pieces of the state.
    pub fn into_parts(self) -> (p: InsuranceParts)
        requires
            self.wf(),
        ensures
            p.well_formed(),
            p@ == self@,
    {
        InsuranceParts {
            pause_admin: self.pause_admin,
            next_id: self.next_id,
            policies: self.policies,
            archived: self.archived,
            owner_index: self.owner_index,
            ref_index: self.ref_index,
        }
    }

    /// Rebuilds the state from stored pieces; `None` when a list repeats a key or the pieces do
    /// not describe a consistent state.
    pub fn from_parts(parts: InsuranceParts) -> (r: Option<Insurance>)
        ensures
            r is Some == parts.well_formed(),
            r matches Some(s) ==> s.wf() && s@ == parts@,
    {
        let s = Insurance {
            pause_admin: parts.pause_admin,
            next_id: parts.next_id,
            policies: parts.policies,
            archived: parts.archived,
            owner_index: parts.owner_index,
            ref_index: parts.ref_index,
        };
        assert(s@ == parts@);
        if !s.keys_are_distinct() {
            return None;
        }
        if !s.live_policies_ok() || !s.archived_policies_ok() || !s.owner_lists_ok()
            || !s.bindings_ok() {
            return None;
        }
        Some(s)
    }

    fn keys_are_distinct(&self) -> (b: bool)
        ensures
            b == self.rep_ok(),
    {
        let n = self.policies.len();
        let mut i: usize = 0;
        while i < n
            invariant
                n == self.policies@.len(),
                i <= n,
                forall|a: int, b: int|
                    0 <= a < b < i ==> self.policies@[a].id != self.policies@[b].id,
            decreases n - i,
        {
            match self.find_policy(self.policies[i].id) {
                Some(j) => {
                    if j != i {
                        proof {
                            assert(policy_entries(self.policies@)[j as int].0 == policy_entries(self.policies@)[i as int].0);
                        }
                        return false;
                    }
                },
                None => {
                    proof {
                        lemma_assoc_dom(policy_entries(self.policies@), self.policies@[i as int].id);
                        assert(policy_entries(self.policies@)[i as int].0 == self.policies@[i as int].id);
                    }
                },
            }
            i = i + 1;
        }
        let n = self.archived.len();
        let mut i: usize = 0;
        while i < n
            invariant
                n == self.archived@.len(),
                i <= n,
                forall|a: int, b: int|
                    0 <= a < b < self.policies@.len() ==> self.policies@[a].id != self.policies@[b].id,
                forall|a: int, b: int|
                    0 <= a < b < i ==> self.archived@[a].id != self.archived@[b].id,
            decreases n - i,
        {
            match self.find_archived(self.archived[i].id) {
                Some(j) => {
                    if j != i {
                        proof {
                            assert(archived_entries(self.archived@)[j as int].0 == archived_entries(self.archived@)[i as int].0);
                        }
                        return false;
                    }
                },
                None => {
                    proof {
                        lemma_assoc_dom(archived_entries(self.archived@), self.archived@[i as int].id);
                        assert(archived_entries(self.archived@)[i as int].0 == self.archived@[i as int].id);
                    }
                },
            }
            i = i + 1;
        }
        let n = self.owner_index.len();
        let mut i: usize = 0;
        while i < n
            invariant
                n == self.owner_index@.len(),
                i <= n,
                forall|a: int, b: int|
                    0 <= a < b < self.policies@.len() ==> self.policies@[a].id != self.policies@[b].id,
                forall|a: int, b: int|
                    0 <= a < b < self.archived@.len() ==> self.archived@[a].id != self.archived@[b].id,
                forall|a: int, b: int|
                    0 <= a < b < i ==> self.owner_index@[a].owner@ != self.owner_index@[b].owner@,
            decreases n - i,
        {
            match self.find_owner(&self.owner_index[i].owner) {
                Some(j) => {
                    if j != i {
                        proof {
                            assert(owner_entries(self.owner_index@)[j as int].0 == owner_entries(self.owner_index@)[i as int].0);
                        }
                        return false;
                    }
                },
                None => {
                    proof {
                        lemma_assoc_dom(owner_entries(self.owner_index@), self.owner_index@[i as int].owner@);
                        assert(owner_entries(self.owner_index@)[i as int].0 == self.owner_index@[i as int].owner@);
                    }
                },
            }
            i = i + 1;
        }
        let n = self.ref_index.len();
        let mut i: usize = 0;
        while i < n
            invariant
                n == self.ref_index@.len(),
                i <= n,
                forall|a: int, b: int|
                    0 <= a < b < self.policies@.len() ==> self.policies@[a].id != self.policies@[b].id,
                forall|a: int, b: int|
                    0 <= a < b < self.archived@.len() ==> self.archived@[a].id != self.archived@[b].id,
                forall|a: int, b: int|
                    0 <= a < b < self.owner_index@.len() ==> self.owner_index@[a].owner@ != self.owner_index@[b].owner@,
                forall|a: int, b: int|
                    0 <= a < b < i ==> ref_entry(self.ref_index@[a]).0 != ref_entry(self.ref_index@[b]).0,
            decreases n - i,
        {
            let b = &self.ref_index[i];
            match self.find_ref(&b.owner, &b.external_ref) {
                Some(j) => {
                    if j != i {
                        proof {
                            assert(ref_entries(self.ref_index@)[j as int].0 == ref_entries(self.ref_index@)[i as int].0);
                        }
                        return false;
                    }
                },
                None => {
                    proof {
                        lemma_assoc_dom(ref_entries(self.ref_index@), ref_entry(self.ref_index@[i as int]).0);
                        assert(ref_entries(self.ref_index@)[i as int] == ref_entry(self.ref_index@[i as int]));
                    }
                },
            }
            i = i + 1;
        }
        proof {
            let pe = policy_entries(self.policies@);
            assert forall|a: int, b: int| 0 <= a < pe.len() && 0 <= b < pe.len() && a != b implies pe[a].0 != pe[b].0 by {
                if a < b {
                    assert(self.policies@[a].id != self.policies@[b].id);
                } else {
                    assert(self.policies@[b].id != self.policies@[a].id);
                }
            }
            let ae = archived_entries(self.archived@);
            assert forall|a: int, b: int| 0 <= a < ae.len() && 0 <= b < ae.len() && a != b implies ae[a].0 != ae[b].0 by {
                if a < b {
                    assert(self.archived@[a].id != self.archived@[b].id);
                } else {
                    assert(self.archived@[b].id != self.archived@[a].id);
                }
            }
            let oe = owner_entries(self.owner_index@);
            assert forall|a: int, b: int| 0 <= a < oe.len() && 0 <= b < oe.len() && a != b implies oe[a].0 != oe[b].0 by {
                if a < b {
                    assert(self.owner_index@[a].owner@ != self.owner_index@[b].owner@);
                } else {
                    assert(self.owner_index@[b].owner@ != self.owner_index@[a].owner@);
                }
            }
            let re = ref_entries(self.ref_index@);
            assert forall|a: int, b: int| 0 <= a < re.len() && 0 <= b < re.len() && a != b implies re[a].0 != re[b].0 by {
                if a < b {
                    assert(ref_entry(self.ref_index@[a]).0 != ref_entry(self.ref_index@[b]).0);
                } else {
                    assert(ref_entry(self.ref_index@[b]).0 != ref_entry(self.ref_index@[a]).0);
                }
            }
        }
        true
    }
}


/// What `consistent` asks of one live policy, besides being stored under its id.
pub open spec fn live_entry_ok(v: InsuranceView, p: InsurancePolicy) -> bool {
    &&& 1 <= p.id <= v.next_id
    &&& !v.archived.contains_key(p.id)
    &&& v.owner_ids(p.owner@).contains(p.id)
    &&& p.active && p.external_ref is Some ==> v.ref_binding(p.owner@, p.external_ref->0@) == Some(
        p.id,
    )
    &&& p.external_ref is Some ==> valid_external_ref(p.external_ref->0@)
}

/// What `consistent` asks of one archived policy, besides being stored under its id.
pub open spec fn archived_entry_ok(v: InsuranceView, a: ArchivedPolicy) -> bool {
    &&& 1 <= a.id <= v.next_id
    &&& v.owner_ids(a.owner@).contains(a.id)
    &&& a.external_ref is Some ==> valid_external_ref(a.external_ref->0@)
}

/// What `consistent` asks of one owner's list.
pub open spec fn owner_entry_ok(v: InsuranceView, o: Seq<char>, ids: Seq<u32>) -> bool {
    &&& increasing(ids)
    &&& forall|k: int|
        0 <= k < ids.len() ==> {
            let id = #[trigger] ids[k];
            ||| v.policies.contains_key(id) && v.policies[id].owner@ == o
            ||| v.archived.contains_key(id) && v.archived[id].owner@ == o
        }
}

/// What `consistent` asks of one reference binding.
pub open spec fn binding_ok(v: InsuranceView, k: (Seq<char>, Seq<char>), id: u32) -> bool {
    &&& v.policies.contains_key(id)
    &&& v.policies[id].owner@ == k.0
    &&& opt_view(v.policies[id].external_ref) == Some(k.1)
}

impl Insurance {
    fn owner_lists(&self, owner: &Address, id: u32) -> (b: bool)
        requires
            self.rep_ok(),
        ensures
            b == self@.owner_ids(owner@).contains(id),
    {
        match self.find_owner(owner) {
            Some(k) => {
                proof {
                    lemma_assoc_value(owner_entries(self.owner_index@), k as int);
                }
                vec_contains(&self.owner_index[k].ids, id)
            },
            None => false,
        }
    }

    fn live_entry_is_ok(&self, p: &InsurancePolicy) -> (b: bool)
        requires
            self.rep_ok(),
        ensures
            b == live_entry_ok(self@, *p),
    {
        if p.id < 1 || p.id > self.next_id {
            return false;
        }
        match self.find_archived(p.id) {
            Some(j) => {
                proof {
                    lemma_assoc_value(archived_entries(self.archived@), j as int);
                }
                return false;
            },
            None => {},
        }
        if !self.owner_lists(&p.owner, p.id) {
            return false;
        }
        match &p.external_ref {
            Some(r) => {
                if external_ref_refusal(r).is_some() {
                    return false;
                }
                if p.active {
                    match self.lookup_ref(&p.owner, r) {
                        Some(b) => b == p.id,
                        None => false,
                    }
                } else {
                    true
                }
            },
            None => true,
        }
    }

    fn live_policies_ok(&self) -> (b: bool)
        requires
            self.rep_ok(),
        ensures
            b == self@.live_policies_consistent(),
    {
        let ghost v = self@;
        let ghost es = policy_entries(self.policies@);
        let n = self.policies.len();
        let mut i: usize = 0;
        while i < n
            invariant
                n == self.policies@.len(),
                v == self@,
                es == policy_entries(self.policies@),
                self.rep_ok(),
                i <= n,
                forall|j: int| 0 <= j < i ==> live_entry_ok(v, #[trigger] self.policies@[j]),
            decreases n - i,
        {
            let p = &self.policies[i];
            proof {
                lemma_assoc_value(es, i as int);
                assert(es[i as int] == (p.id, *p));
            }
            if !self.live_entry_is_ok(p) {
                assert(v.policies.contains_key(p.id) && v.policies[p.id] == *p);
                return false;
            }
            i = i + 1;
        }
        proof {
            assert forall|id: u32| #[trigger] v.policies.contains_key(id) implies v.policies[id].id == id
                && live_entry_ok(v, v.policies[id]) by {
                lemma_assoc_dom(es, id);
                let j = choose|j: int| 0 <= j < es.len() && es[j].0 == id;
                lemma_assoc_value(es, j);
                assert(es[j] == (self.policies@[j].id, self.policies@[j]));
            }
        }
        true
    }

    fn archived_entry_is_ok(&self, a: &ArchivedPolicy) -> (b: bool)
        requires
            self.rep_ok(),
        ensures
            b == archived_entry_ok(self@, *a),
    {
        if a.id < 1 || a.id > self.next_id {
            return false;
        }
        if !self.owner_lists(&a.owner, a.id) {
            return false;
        }
        match &a.external_ref {
            Some(r) => external_ref_refusal(r).is_none(),
            None => true,
        }
    }

    fn archived_policies_ok(&self) -> (b: bool)
        requires
            self.rep_ok(),
        ensures
            b == self@.archived_policies_consistent(),
    {
        let ghost v = self@;
        let ghost es = archived_entries(self.archived@);
        let n = self.archived.len();
        let mut i: usize = 0;
        while i < n
            invariant
                n == self.archived@.len(),
                v == self@,
                es == archived_entries(self.archived@),
                self.rep_ok(),
                i <= n,
                forall|j: int| 0 <= j < i ==> archived_entry_ok(v, #[trigger] self.archived@[j]),
            decreases n - i,
        {
            let a = &self.archived[i];
            proof {
                lemma_assoc_value(es, i as int);
                assert(es[i as int] == (a.id, *a));
            }
            if !self.archived_entry_is_ok(a) {
                assert(v.archived.contains_key(a.id) && v.archived[a.id] == *a);
                return false;
            }
            i = i + 1;
        }
        proof {
            assert forall|id: u32| #[trigger] v.archived.contains_key(id) implies v.archived[id].id == id
                && archived_entry_ok(v, v.archived[id]) by {
                lemma_assoc_dom(es, id);
                let j = choose|j: int| 0 <= j < es.len() && es[j].0 == id;
                lemma_assoc_value(es, j);
                assert(es[j] == (self.archived@[j].id, self.archived@[j]));
            }
        }
        true
    }

    fn owner_entry_is_ok(&self, e: &OwnerPolicies) -> (b: bool)
        requires
            self.rep_ok(),
        ensures
            b == owner_entry_ok(self@, e.owner@, e.ids@),
    {
        let ghost v = self@;
        if !is_increasing(&e.ids) {
            return false;
        }
        let n = e.ids.len();
        let mut m: usize = 0;
        while m < n
            invariant
                n == e.ids@.len(),
                v == self@,
                self.rep_ok(),
                increasing(e.ids@),
                m <= n,
                forall|k: int|
                    0 <= k < m ==> {
                        let id = #[trigger] e.ids@[k];
                        ||| v.policies.contains_key(id) && v.policies[id].owner@ == e.owner@
                        ||| v.archived.contains_key(id) && v.archived[id].owner@ == e.owner@
                    },
            decreases n - m,
        {
            let id = e.ids[m];
            let in_live = match self.find_policy(id) {
                Some(j) => {
                    proof {
                        lemma_assoc_value(policy_entries(self.policies@), j as int);
                    }
                    self.policies[j].owner.same_as(&e.owner)
                },
                None => false,
            };
            let in_archive = match self.find_archived(id) {
                Some(j) => {
                    proof {
                        lemma_assoc_value(archived_entries(self.archived@), j as int);
                    }
                    self.archived[j].owner.same_as(&e.owner)
                },
                None => false,
            };
            if !in_live && !in_archive {
                assert(e.ids@[m as int] == id);
                return false;
            }
            m = m + 1;
        }
        true
    }

    fn owner_lists_ok(&self) -> (b: bool)
        requires
            self.rep_ok(),
        ensures
            b == self@.owner_lists_consistent(),
    {
        let ghost v = self@;
        let ghost es = owner_entries(self.owner_index@);
        let n = self.owner_index.len();
        let mut i: usize = 0;
        while i < n
            invariant
                n == self.owner_index@.len(),
                v == self@,
                es == owner_entries(self.owner_index@),
                self.rep_ok(),
                i <= n,
                forall|j: int|
                    0 <= j < i ==> owner_entry_ok(v, #[trigger] es[j].0, es[j].1),
            decreases n - i,
        {
            let e = &self.owner_index[i];
            proof {
                lemma_assoc_value(es, i as int);
                assert(es[i as int] == (e.owner@, e.ids@));
            }
            if !self.owner_entry_is_ok(e) {
                assert(v.owner_policies.contains_key(e.owner@) && v.owner_policies[e.owner@] == e.ids@);
                return false;
            }
            i = i + 1;
        }
        proof {
            assert forall|o: Seq<char>| #[trigger] v.owner_policies.contains_key(o) implies owner_entry_ok(
                v,
                o,
                v.owner_policies[o],
            ) by {
                lemma_assoc_dom(es, o);
                let j = choose|j: int| 0 <= j < es.len() && es[j].0 == o;
                lemma_assoc_value(es, j);
            }
        }
        true
    }

    fn bindings_ok(&self) -> (b: bool)
        requires
            self.rep_ok(),
        ensures
            b == self@.bindings_consistent(),
    {
        let ghost v = self@;
        let ghost es = ref_entries(self.ref_index@);
        let n = self.ref_index.len();
        let mut i: usize = 0;
        while i < n
            invariant
                n == self.ref_index@.len(),
                v == self@,
                es == ref_entries(self.ref_index@),
                self.rep_ok(),
                i <= n,
                forall|j: int| 0 <= j < i ==> binding_ok(v, #[trigger] es[j].0, es[j].1),
            decreases n - i,
        {
            let b = &self.ref_index[i];
            proof {
                lemma_assoc_value(es, i as int);
                assert(es[i as int] == ((b.owner@, b.external_ref@), b.policy_id));
            }
            let ok = match self.find_policy(b.policy_id) {
                Some(j) => {
                    proof {
                        lemma_assoc_value(policy_entries(self.policies@), j as int);
                    }
                    let p = &self.policies[j];
                    p.owner.same_as(&b.owner) && match &p.external_ref {
                        Some(r) => *r == b.external_ref,
                        None => false,
                    }
                },
                None => false,
            };
            if !ok {
                assert(!binding_ok(v, es[i as int].0, es[i as int].1));
                return false;
            }
            i = i + 1;
        }
        proof {
            assert forall|k: (Seq<char>, Seq<char>)| #[trigger] v.external_refs.contains_key(k) implies binding_ok(
                v,
                k,
                v.external_refs[k],
            ) by {
                lemma_assoc_dom(es, k);
                let j = choose|j: int| 0 <= j < es.len() && es[j].0 == k;
                lemma_assoc_value(es, j);
            }
        }
        true
    }
}

} // verus!
