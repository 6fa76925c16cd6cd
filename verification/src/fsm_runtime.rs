//! The state of a single client connection: who the client is, and which
//! operations are under way.

use std::time::Instant;
use vstd::prelude::*;

use crate::clock;
use crate::clock::Duration;
use crate::directory;
use crate::directory::DirectoryEntry;
use crate::string_map;
use crate::text;

verus! {

// ---------------------------------------------------------------------------
// What the directory knows of a user
// ---------------------------------------------------------------------------

/// What a name that cannot be one of an entry is refused with.
pub open spec fn dn_fault(dn: Seq<char>) -> Option<Seq<char>> {
    let normalized = text::trim(dn);
    if normalized.len() == 0 {
        Some("DN must not be empty"@)
    } else if !normalized.contains('=') {
        Some("Invalid DN format: "@ + normalized)
    } else {
        None
    }
}

/// A name that may be one of an entry.
pub fn validate_dn(dn: &str) -> (r: Result<(), String>)
    ensures
        match r {
            Ok(_) => dn_fault(dn@) is None,
            Err(e) => dn_fault(dn@) == Some(e@),
        },
{
    let normalized = text::trimmed(dn);
    if normalized.as_str().is_empty() {
        return Err("DN must not be empty".to_owned());
    }
    if !text::has_char(normalized.as_str(), '=') {
        let mut message = "Invalid DN format: ".to_owned();
        message.append(normalized.as_str());
        return Err(message);
    }
    Ok(())
}

/// The first value of an attribute.
pub open spec fn first_value(attrs: directory::AttributeSeq, attribute: Seq<char>) -> Option<
    Seq<char>,
> {
    match string_map::lookup(attrs, attribute) {
        Some(values) => if values.len() > 0 {
            Some(values[0])
        } else {
            None
        },
        None => None,
    }
}

pub fn first_attribute_value(entry: &DirectoryEntry, attribute: &str) -> (r: Option<String>)
    ensures
        text::option_text(r) == first_value(entry.attributes@, attribute@),
{
    match entry.attributes.get(attribute) {
        Some(values) => if values.len() > 0 {
            proof {
                assert(text::texts(values@)[0] == values@[0]@);
            }
            Some(values[0].clone())
        } else {
            None
        },
        None => None,
    }
}

/// What the server keeps of a user who has bound.
#[derive(Debug)]
pub struct AuthUserInfo {
    pub dn: String,
    pub display_name: Option<String>,
    pub email: Option<String>,
    pub groups: Vec<String>,
    pub last_login: Option<Instant>,
}

/// The values of an attribute, none where it is not there.
pub open spec fn values_of(attrs: directory::AttributeSeq, attribute: Seq<char>) -> Seq<Seq<char>> {
    match string_map::lookup(attrs, attribute) {
        Some(values) => values,
        None => Seq::empty(),
    }
}

/// What the entry of a user says of the user: the display name, else the
/// common name; the first mail address; and the groups. The login is now.
pub fn user_info(entry: &DirectoryEntry) -> (r: AuthUserInfo)
    ensures
        r.dn == entry.dn,
        text::option_text(r.display_name) == (match first_value(entry.attributes@, "displayname"@) {
            Some(name) => Some(name),
            None => first_value(entry.attributes@, "cn"@),
        }),
        text::option_text(r.email) == first_value(entry.attributes@, "mail"@),
        text::texts(r.groups@) == values_of(entry.attributes@, "memberof"@),
        r.last_login is Some,
{
    let display_name = match first_attribute_value(entry, "displayname") {
        Some(name) => Some(name),
        None => first_attribute_value(entry, "cn"),
    };
    let groups = match entry.attributes.get("memberof") {
        Some(values) => directory::copy_strings(values),
        None => {
            let none: Vec<String> = Vec::new();
            proof {
                assert(text::texts(none@) =~= Seq::<Seq<char>>::empty());
            }
            none
        },
    };
    AuthUserInfo {
        dn: entry.dn.clone(),
        display_name,
        email: first_attribute_value(entry, "mail"),
        groups,
        last_login: Some(clock::instant_now()),
    }
}

/// What is known of the user of that name, by what the directory found.
pub fn get_user_info(dn: &str, found: Result<Option<DirectoryEntry>, String>) -> (r: Result<
    AuthUserInfo,
    String,
>)
    ensures
        match (found, r) {
            (Err(e), Err(m)) => m == e,
            (Ok(None), Err(m)) => m@ == "DN not found: "@ + dn@,
            (Ok(Some(entry)), Ok(info)) => info.dn == entry.dn && text::option_text(info.email)
                == first_value(entry.attributes@, "mail"@) && text::option_text(info.display_name) == (
            match first_value(entry.attributes@, "displayname"@) {
                Some(name) => Some(name),
                None => first_value(entry.attributes@, "cn"@),
            }) && text::texts(info.groups@) == values_of(entry.attributes@, "memberof"@),
            _ => false,
        },
{
    match found {
        Err(e) => Err(e),
        Ok(None) => {
            let mut message = "DN not found: ".to_owned();
            message.append(dn);
            Err(message)
        },
        Ok(Some(entry)) => Ok(user_info(&entry)),
    }
}

// ---------------------------------------------------------------------------
// Authentication
// ---------------------------------------------------------------------------

/// How far a client that binds by name and password has come.
#[derive(Debug, PartialEq, Eq)]
pub enum AuthState {
    Anonymous,
    SimpleBound { dn: String },
}

/// A client that binds by name and password.
#[derive(Debug, PartialEq, Eq)]
pub struct AuthFsmImpl {
    pub state: AuthState,
}

impl AuthFsmImpl {
    pub fn new() -> (r: Self)
        ensures
            r.state is Anonymous,
    {
        AuthFsmImpl { state: AuthState::Anonymous }
    }

    pub fn current_state(&self) -> (r: &AuthState)
        ensures
            *r == self.state,
    {
        &self.state
    }
}

/// A client that binds by a mechanism.
#[derive(Debug, PartialEq, Eq)]
pub struct SaslFsmImpl {
    pub identity: Option<String>,
}

impl SaslFsmImpl {
    pub fn authenticated_identity(&self) -> (r: Option<&str>)
        ensures
            match r {
                Some(s) => text::option_text(self.identity) == Some(s@),
                None => self.identity is None,
            },
    {
        match &self.identity {
            Some(s) => Some(s.as_str()),
            None => None,
        }
    }
}

/// The authentication of a client, by name and password or by a mechanism.
#[derive(Debug, PartialEq, Eq)]
pub enum AuthenticationFsm {
    Simple(AuthFsmImpl),
    Sasl(SaslFsmImpl),
}

impl AuthenticationFsm {
    /// The name under which the client is known.
    pub open spec fn identity(self) -> Option<Seq<char>> {
        match self {
            AuthenticationFsm::Simple(auth) => match auth.state {
                AuthState::SimpleBound { dn } => Some(dn@),
                AuthState::Anonymous => None,
            },
            AuthenticationFsm::Sasl(sasl) => text::option_text(sasl.identity),
        }
    }

    /// The name under which the client is known.
    pub fn authenticated_dn(&self) -> (r: Option<&str>)
        ensures
            match r {
                Some(dn) => self.identity() == Some(dn@),
                None => self.identity() is None,
            },
    {
        match self {
            AuthenticationFsm::Simple(auth) => match auth.current_state() {
                AuthState::SimpleBound { dn } => Some(dn.as_str()),
                AuthState::Anonymous => None,
            },
            AuthenticationFsm::Sasl(sasl) => sasl.authenticated_identity(),
        }
    }

    /// The client is known.
    pub fn is_authenticated(&self) -> (r: bool)
        ensures
            r == (self.identity() is Some),
    {
        self.authenticated_dn().is_some()
    }

    /// The client is not known any more; the way of authentication stays.
    pub fn reset(&mut self)
        ensures
            final(self).identity() is None,
            (*final(self)) is Simple <==> (*old(self)) is Simple,
    {
        match self {
            AuthenticationFsm::Simple(_) => {
                *self = AuthenticationFsm::Simple(AuthFsmImpl::new());
            },
            AuthenticationFsm::Sasl(_) => {
                *self = AuthenticationFsm::Sasl(SaslFsmImpl { identity: None });
            },
        }
    }
}

// ---------------------------------------------------------------------------
// Operations
// ---------------------------------------------------------------------------

/// How far an operation has come.
#[derive(Debug, Clone, Copy, PartialEq, Eq, Structural)]
pub struct OperationProgress {
    pub terminal: bool,
}

/// An operation that is under way.
#[derive(Debug, Clone, Copy, PartialEq, Eq, Structural)]
pub enum OperationFsm {
    Search(OperationProgress),
    Write(OperationProgress),
    Compare(OperationProgress),
    Extended(OperationProgress),
}

/// The operation has come to its end.
pub open spec fn operation_ended(op: OperationFsm) -> bool {
    match op {
        OperationFsm::Search(fsm) => fsm.terminal,
        OperationFsm::Write(fsm) => fsm.terminal,
        OperationFsm::Compare(fsm) => fsm.terminal,
        OperationFsm::Extended(fsm) => fsm.terminal,
    }
}

impl OperationFsm {
    /// The operation has come to its end.
    pub fn is_terminal(&self) -> (r: bool)
        ensures
            r == operation_ended(*self),
    {
        match self {
            OperationFsm::Search(fsm) => fsm.terminal,
            OperationFsm::Write(fsm) => fsm.terminal,
            OperationFsm::Compare(fsm) => fsm.terminal,
            OperationFsm::Extended(fsm) => fsm.terminal,
        }
    }

    /// The operation has a time limit: a search has one.
    pub fn has_timeout(&self) -> (r: bool)
        ensures
            r == (*self is Search),
    {
        matches!(self, OperationFsm::Search(_))
    }
}

/// The kinds of operations.
#[derive(Debug, Clone, Copy, PartialEq, Eq, Structural)]
pub enum OperationType {
    Search,
    Add,
    Modify,
    ModifyDn,
    Delete,
    Compare,
    Extended,
}

/// What is known of an operation besides how far it has come.
#[derive(Debug, Clone, Copy)]
pub struct OperationInfo {
    pub message_id: i32,
    pub created_at: Instant,
    pub operation_type: OperationType,
}

/// An operation with what is known of it.
#[derive(Debug)]
pub struct RegisteredOperation {
    pub info: OperationInfo,
    /// How old the registry was when it took the operation up.
    pub taken_at: Duration,
    pub operation: OperationFsm,
}

/// The operations of a connection, each under a message ID of its own.
#[derive(Debug)]
pub struct FsmOperationRegistry {
    /// When the registry was made.
    pub start: Instant,
    pub entries: Vec<RegisteredOperation>,
}

/// No message ID is used twice.
pub open spec fn distinct_ids(s: Seq<RegisteredOperation>) -> bool {
    forall|i: int, j: int|
        0 <= i < j < s.len() ==> (#[trigger] s[i]).info.message_id != (
        #[trigger] s[j]).info.message_id
}

/// The place of a message ID, the length where it is not used.
pub open spec fn id_place(s: Seq<RegisteredOperation>, id: i32) -> int
    decreases s.len(),
{
    if s.len() == 0 || s[0].info.message_id == id {
        0
    } else {
        1 + id_place(s.drop_first(), id)
    }
}

/// A place that holds a message ID is the place of it, as none is used twice.
pub proof fn id_place_bounds(s: Seq<RegisteredOperation>, id: i32)
    ensures
        0 <= id_place(s, id) <= s.len(),
        id_place(s, id) < s.len() ==> s[id_place(s, id)].info.message_id == id,
        forall|j: int| 0 <= j < id_place(s, id) ==> (#[trigger] s[j]).info.message_id != id,
    decreases s.len(),
{
    if s.len() > 0 && s[0].info.message_id != id {
        let rest = s.drop_first();
        id_place_bounds(rest, id);
        assert forall|j: int| 0 <= j < id_place(s, id) implies (#[trigger] s[j]).info.message_id
            != id by {
            if j > 0 {
                assert(s[j] == rest[j - 1]);
            }
        }
    }
}

/// The operations that are to stay, in their order; those to go are marked.
pub open spec fn staying(s: Seq<RegisteredOperation>, gone: Seq<bool>) -> Seq<RegisteredOperation>
    decreases s.len(),
{
    if s.len() == 0 {
        s
    } else {
        let before = staying(s.drop_last(), gone);
        if 0 <= s.len() - 1 < gone.len() && gone[s.len() - 1] {
            before
        } else {
            before.push(s.last())
        }
    }
}

proof fn staying_shape(s: Seq<RegisteredOperation>, gone: Seq<bool>)
    ensures
        staying(s, gone).len() <= s.len(),
        forall|k: int|
            0 <= k < staying(s, gone).len() ==> s.contains(#[trigger] staying(s, gone)[k]),
        distinct_ids(s) ==> distinct_ids(staying(s, gone)),
    decreases s.len(),
{
    if s.len() > 0 {
        let front = s.drop_last();
        staying_shape(front, gone);
        let before = staying(front, gone);
        let all = staying(s, gone);
        assert forall|k: int| 0 <= k < all.len() implies s.contains(#[trigger] all[k]) by {
            if k < before.len() {
                assert(all[k] == before[k]);
                assert(front.contains(before[k]));
                let m = choose|m: int| 0 <= m < front.len() && front[m] == before[k];
                assert(s[m] == before[k]);
            } else {
                assert(s[s.len() - 1] == all[k]);
            }
        }
        if distinct_ids(s) {
            assert forall|i: int, j: int| 0 <= i < j < front.len() implies (
            #[trigger] front[i]).info.message_id != (#[trigger] front[j]).info.message_id by {
                assert(s[i].info.message_id != s[j].info.message_id);
            }
            assert forall|i: int, j: int| 0 <= i < j < all.len() implies (
            #[trigger] all[i]).info.message_id != (#[trigger] all[j]).info.message_id by {
                assert(all[i] == before[i]);
                if j < before.len() {
                    assert(all[j] == before[j]);
                } else {
                    assert(front.contains(before[i]));
                    let m = choose|m: int| 0 <= m < front.len() && front[m] == before[i];
                    assert(s[m].info.message_id != s[s.len() - 1].info.message_id);
                }
            }
        }
    }
}

/// The text with which a message ID in use is refused.
pub open spec fn id_in_use_text(id: i32) -> Seq<char> {
    "Message ID "@ + text::signed_decimal(id as int) + " is already in use"@
}

impl FsmOperationRegistry {
    /// No message ID is used twice.
    pub open spec fn wf(self) -> bool {
        distinct_ids(self.entries@)
    }

    pub fn new() -> (r: Self)
        ensures
            r.wf(),
            r.entries@ == Seq::<RegisteredOperation>::empty(),
    {
        FsmOperationRegistry { start: clock::instant_now(), entries: Vec::new() }
    }

    fn place(&self, message_id: i32) -> (r: usize)
        ensures
            r == id_place(self.entries@, message_id),
    {
        let ghost s = self.entries@;
        let mut i: usize = 0;
        proof {
            assert(s.skip(0) =~= s);
        }
        while i < self.entries.len() && self.entries[i].info.message_id != message_id
            invariant
                s == self.entries@,
                i <= self.entries@.len(),
                id_place(s, message_id) == i + id_place(s.skip(i as int), message_id),
            decreases self.entries@.len() - i,
        {
            proof {
                assert(s.skip(i as int).drop_first() =~= s.skip(i + 1));
            }
            i = i + 1;
        }
        i
    }

    /// Takes up an operation under a message ID that is not in use, at that age
    /// of the registry.
    pub fn add_operation_at(
        &mut self,
        message_id: i32,
        operation: OperationFsm,
        operation_type: OperationType,
        created_at: Instant,
        taken_at: Duration,
    ) -> (r: Result<(), String>)
        requires
            old(self).wf(),
        ensures
            final(self).wf(),
            final(self).start == old(self).start,
            match r {
                Ok(_) => {
                    &&& id_place(old(self).entries@, message_id) == old(self).entries@.len()
                    &&& final(self).entries@ == old(self).entries@.push(
                        RegisteredOperation {
                            info: OperationInfo { message_id, created_at, operation_type },
                            taken_at,
                            operation,
                        },
                    )
                },
                Err(e) => {
                    &&& id_place(old(self).entries@, message_id) < old(self).entries@.len()
                    &&& *final(self) == *old(self)
                    &&& e@ == id_in_use_text(message_id)
                },
            },
    {
        proof {
            id_place_bounds(self.entries@, message_id);
        }
        if self.place(message_id) < self.entries.len() {
            let mut message = "Message ID ".to_owned();
            message.append(text::signed_decimal_of(message_id).as_str());
            message.append(" is already in use");
            return Err(message);
        }
        let info = OperationInfo { message_id, created_at, operation_type };
        self.entries.push(RegisteredOperation { info, taken_at, operation });
        Ok(())
    }

    /// Takes up an operation under a message ID that is not in use, now.
    pub fn add_operation(
        &mut self,
        message_id: i32,
        operation: OperationFsm,
        operation_type: OperationType,
    ) -> (r: Result<(), String>)
        requires
            old(self).wf(),
        ensures
            final(self).wf(),
            final(self).start == old(self).start,
            match r {
                Ok(_) => {
                    &&& id_place(old(self).entries@, message_id) == old(self).entries@.len()
                    &&& final(self).entries@.drop_last() == old(self).entries@
                    &&& final(self).entries@.len() == old(self).entries@.len() + 1
                    &&& final(self).entries@.last().operation == operation
                    &&& final(self).entries@.last().info.message_id == message_id
                    &&& final(self).entries@.last().info.operation_type == operation_type
                },
                Err(e) => {
                    &&& id_place(old(self).entries@, message_id) < old(self).entries@.len()
                    &&& *final(self) == *old(self)
                    &&& e@ == id_in_use_text(message_id)
                },
            },
    {
        let created_at = clock::instant_now();
        let taken_at = clock::age_of(&self.start);
        let r = self.add_operation_at(message_id, operation, operation_type, created_at, taken_at);
        proof {
            if r is Ok {
                assert(self.entries@.drop_last() =~= old(self).entries@);
            }
        }
        r
    }

    /// The operation under a message ID.
    pub fn get(&self, message_id: i32) -> (r: Option<&OperationFsm>)
        ensures
            match r {
                Some(op) => id_place(self.entries@, message_id) < self.entries@.len() && *op
                    == self.entries@[id_place(self.entries@, message_id)].operation,
                None => id_place(self.entries@, message_id) == self.entries@.len(),
            },
    {
        proof {
            id_place_bounds(self.entries@, message_id);
        }
        let i = self.place(message_id);
        if i < self.entries.len() {
            Some(&self.entries[i].operation)
        } else {
            None
        }
    }

    /// The operation under a message ID, to be changed.
    pub fn get_mut(&mut self, message_id: i32) -> (r: Option<&mut OperationFsm>)
        requires
            old(self).wf(),
        ensures
            final(self).wf(),
            final(self).start == old(self).start,
            match r {
                Some(op) => {
                    let i = id_place(old(self).entries@, message_id);
                    &&& i < old(self).entries@.len()
                    &&& *op == old(self).entries@[i].operation
                    &&& final(self).entries@ == old(self).entries@.update(
                        i,
                        RegisteredOperation { operation: *final(op), ..old(self).entries@[i] },
                    )
                },
                None => id_place(old(self).entries@, message_id) == old(self).entries@.len()
                    && *final(self) == *old(self),
            },
    {
        proof {
            id_place_bounds(self.entries@, message_id);
        }
        let i = self.place(message_id);
        if i < self.entries.len() {
            Some(&mut self.entries[i].operation)
        } else {
            None
        }
    }

    /// Gives up the operation under a message ID.
    pub fn remove(&mut self, message_id: i32) -> (r: Option<OperationFsm>)
        requires
            old(self).wf(),
        ensures
            final(self).wf(),
            final(self).start == old(self).start,
            match r {
                Some(op) => {
                    let i = id_place(old(self).entries@, message_id);
                    &&& i < old(self).entries@.len()
                    &&& op == old(self).entries@[i].operation
                    &&& final(self).entries@ == old(self).entries@.remove(i)
                },
                None => id_place(old(self).entries@, message_id) == old(self).entries@.len()
                    && *final(self) == *old(self),
            },
    {
        proof {
            id_place_bounds(self.entries@, message_id);
        }
        let i = self.place(message_id);
        if i < self.entries.len() {
            let entry = self.entries.remove(i);
            Some(entry.operation)
        } else {
            None
        }
    }

    /// Gives up the operations that are marked, and tells how many.
    fn remove_marked(&mut self, gone: &Vec<bool>) -> (r: usize)
        requires
            old(self).wf(),
        ensures
            final(self).wf(),
            final(self).start == old(self).start,
            final(self).entries@ == staying(old(self).entries@, gone@),
            r == old(self).entries@.len() - final(self).entries@.len(),
    {
        let ghost s = self.entries@;
        let mut kept: Vec<RegisteredOperation> = Vec::new();
        let n = self.entries.len();
        let mut i: usize = 0;
        proof {
            assert(kept@ =~= staying(s.take(0), gone@));
        }
        while i < n
            invariant
                s == self.entries@,
                n == s.len(),
                i <= n,
                kept@ == staying(s.take(i as int), gone@),
            decreases n - i,
        {
            proof {
                assert(s.take(i + 1).drop_last() =~= s.take(i as int));
                assert(s.take(i + 1).last() == s[i as int]);
            }
            if !(i < gone.len() && gone[i]) {
                let entry = RegisteredOperation {
                    info: self.entries[i].info,
                    taken_at: self.entries[i].taken_at,
                    operation: self.entries[i].operation,
                };
                proof {
                    assert(entry == s[i as int]);
                }
                kept.push(entry);
            }
            i = i + 1;
        }
        proof {
            assert(s.take(i as int) =~= s);
            staying_shape(s, gone@);
        }
        let removed = n - kept.len();
        self.entries = kept;
        removed
    }

    /// Gives up the operations that have come to their end.
    pub fn cleanup_terminal(&mut self) -> (r: usize)
        requires
            old(self).wf(),
        ensures
            final(self).wf(),
            final(self).start == old(self).start,
            final(self).entries@ == staying(old(self).entries@, ended_marks(old(self).entries@)),
            r == old(self).entries@.len() - final(self).entries@.len(),
    {
        let mut gone: Vec<bool> = Vec::new();
        let mut i: usize = 0;
        while i < self.entries.len()
            invariant
                i <= self.entries@.len(),
                gone@ == ended_marks(self.entries@).take(i as int),
            decreases self.entries@.len() - i,
        {
            let ended = self.entries[i].operation.is_terminal();
            proof {
                let m = ended_marks(self.entries@);
                assert(m.take(i + 1) =~= m.take(i as int).push(m[i as int]));
            }
            gone.push(ended);
            i = i + 1;
        }
        proof {
            assert(gone@ =~= ended_marks(self.entries@));
        }
        self.remove_marked(&gone)
    }

    /// How old each operation is once the registry has come to that age.
    fn ages(&self, now: Duration) -> (r: Vec<Duration>)
        ensures
            spans(r@) == ages_at(self.entries@, now@),
    {
        let mut ages: Vec<Duration> = Vec::new();
        let mut i: usize = 0;
        while i < self.entries.len()
            invariant
                i <= self.entries@.len(),
                ages@.len() == i,
                forall|j: int|
                    0 <= j < i ==> (#[trigger] ages@[j])@ == age_at(self.entries@[j], now@),
            decreases self.entries@.len() - i,
        {
            ages.push(now.since(&self.entries[i].taken_at));
            i = i + 1;
        }
        proof {
            assert(spans(ages@) =~= ages_at(self.entries@, now@));
        }
        ages
    }

    /// Gives up the operations that are older than the greatest age.
    pub fn cleanup_older(&mut self, ages: &Vec<Duration>, max_operation_age: Duration) -> (r: usize)
        requires
            old(self).wf(),
            ages@.len() == old(self).entries@.len(),
        ensures
            final(self).wf(),
            final(self).start == old(self).start,
            final(self).entries@ == staying(
                old(self).entries@,
                older_marks(spans(ages@), max_operation_age@),
            ),
            r == old(self).entries@.len() - final(self).entries@.len(),
    {
        let mut gone: Vec<bool> = Vec::new();
        let mut i: usize = 0;
        while i < ages.len()
            invariant
                i <= ages@.len(),
                gone@ == older_marks(spans(ages@), max_operation_age@).take(i as int),
            decreases ages@.len() - i,
        {
            let older = ages[i].exceeds(&max_operation_age);
            proof {
                let m = older_marks(spans(ages@), max_operation_age@);
                assert(m.take(i + 1) =~= m.take(i as int).push(m[i as int]));
            }
            gone.push(older);
            i = i + 1;
        }
        proof {
            assert(gone@ =~= older_marks(spans(ages@), max_operation_age@));
        }
        self.remove_marked(&gone)
    }

    /// Gives up the operations that are older than the greatest age.
    pub fn cleanup_timed_out_operations(&mut self, max_operation_age: Duration) -> (r: usize)
        requires
            old(self).wf(),
        ensures
            final(self).wf(),
            final(self).start == old(self).start,
            exists|now: nat|
                final(self).entries@ == staying(
                    old(self).entries@,
                    older_marks(
                        #[trigger] ages_at(old(self).entries@, now),
                        max_operation_age@,
                    ),
                ),
            r == old(self).entries@.len() - final(self).entries@.len(),
    {
        let now = clock::age_of(&self.start);
        let ages = self.ages(now);
        proof {
            assert(spans(ages@).len() == ages@.len());
        }
        self.cleanup_older(&ages, max_operation_age)
    }

    /// The message IDs of the operations that are not too old yet and will be
    /// within the threshold.
    pub fn approaching(
        &self,
        ages: &Vec<Duration>,
        warning_threshold: Duration,
        max_operation_age: Duration,
    ) -> (r: Vec<i32>)
        requires
            ages@.len() == self.entries@.len(),
        ensures
            r@ == approaching_ids(
                self.entries@,
                spans(ages@),
                warning_threshold@,
                max_operation_age@,
            ),
    {
        let ghost s = self.entries@;
        let mut out: Vec<i32> = Vec::new();
        let mut i: usize = 0;
        let limit = max_operation_age.as_nanos();
        let threshold = warning_threshold.as_nanos();
        proof {
            assert(out@ =~= approaching_ids(
                s.take(0),
                spans(ages@),
                warning_threshold@,
                max_operation_age@,
            ));
        }
        while i < self.entries.len()
            invariant
                s == self.entries@,
                ages@.len() == s.len(),
                i <= s.len(),
                limit == max_operation_age@,
                threshold == warning_threshold@,
                out@ == approaching_ids(
                    s.take(i as int),
                    spans(ages@),
                    warning_threshold@,
                    max_operation_age@,
                ),
            decreases s.len() - i,
        {
            proof {
                assert(s.take(i + 1).drop_last() =~= s.take(i as int));
                assert(s.take(i + 1).last() == s[i as int]);
            }
            let age = ages[i].as_nanos();
            proof {
                assert(spans(ages@)[i as int] == ages@[i as int]@);
            }
            if age <= limit && limit - age <= threshold {
                out.push(self.entries[i].info.message_id);
            }
            i = i + 1;
        }
        proof {
            assert(s.take(i as int) =~= s);
        }
        out
    }

    /// The message IDs of the operations that will soon be too old.
    pub fn get_operations_approaching_timeout(
        &self,
        warning_threshold: Duration,
        max_operation_age: Duration,
    ) -> (r: Vec<i32>)
        ensures
            exists|now: nat|
                r@ == approaching_ids(
                    self.entries@,
                    #[trigger] ages_at(self.entries@, now),
                    warning_threshold@,
                    max_operation_age@,
                ),
    {
        let now = clock::age_of(&self.start);
        let ages = self.ages(now);
        proof {
            assert(spans(ages@).len() == ages@.len());
        }
        self.approaching(&ages, warning_threshold, max_operation_age)
    }

    pub fn len(&self) -> (r: usize)
        ensures
            r == self.entries@.len(),
    {
        self.entries.len()
    }

    /// What is known of each operation.
    pub fn active_operations(&self) -> (r: Vec<OperationInfo>)
        ensures
            r@ == self.entries@.map_values(|e: RegisteredOperation| e.info),
    {
        let ghost all = self.entries@.map_values(|e: RegisteredOperation| e.info);
        let mut out: Vec<OperationInfo> = Vec::new();
        let mut i: usize = 0;
        while i < self.entries.len()
            invariant
                all == self.entries@.map_values(|e: RegisteredOperation| e.info),
                i <= self.entries@.len(),
                out@ == all.take(i as int),
            decreases self.entries@.len() - i,
        {
            out.push(self.entries[i].info);
            proof {
                assert(all.take(i + 1) =~= all.take(i as int).push(all[i as int]));
            }
            i = i + 1;
        }
        proof {
            assert(all.take(i as int) =~= all);
        }
        out
    }
}

/// For each operation whether it has come to its end.
pub open spec fn ended_marks(s: Seq<RegisteredOperation>) -> Seq<bool> {
    s.map_values(|e: RegisteredOperation| operation_ended(e.operation))
}

/// The spans in nanoseconds.
pub open spec fn spans(ages: Seq<Duration>) -> Seq<nat> {
    ages.map_values(|a: Duration| a@)
}

/// How old an operation is once the registry has come to that age.
pub open spec fn age_at(o: RegisteredOperation, now: nat) -> nat {
    if now >= o.taken_at@ {
        (now - o.taken_at@) as nat
    } else {
        0
    }
}

/// How old each operation is once the registry has come to that age.
pub open spec fn ages_at(s: Seq<RegisteredOperation>, now: nat) -> Seq<nat> {
    s.map_values(|o: RegisteredOperation| age_at(o, now))
}

/// For each age whether it is greater than the greatest age.
pub open spec fn older_marks(ages: Seq<nat>, max_operation_age: nat) -> Seq<bool> {
    ages.map_values(|age: nat| age > max_operation_age)
}

/// The message IDs of the operations that are not too old yet and will be
/// within the threshold.
pub open spec fn approaching_ids(
    s: Seq<RegisteredOperation>,
    ages: Seq<nat>,
    warning_threshold: nat,
    max_operation_age: nat,
) -> Seq<i32>
    decreases s.len(),
{
    if s.len() == 0 {
        Seq::empty()
    } else {
        let before = approaching_ids(s.drop_last(), ages, warning_threshold, max_operation_age);
        let age = ages[s.len() - 1];
        if age <= max_operation_age && max_operation_age - age <= warning_threshold {
            before.push(s.last().info.message_id)
        } else {
            before
        }
    }
}

// ---------------------------------------------------------------------------
// The connection
// ---------------------------------------------------------------------------

/// The transport of a connection, with what is known of it.
#[derive(Debug)]
pub struct ConnectionFsmImpl<T> {
    pub transport: T,
    pub remote_addr: String,
    pub secure: bool,
    pub terminal: bool,
}

impl<T> ConnectionFsmImpl<T> {
    /// The connection is protected.
    pub fn is_secure(&self) -> (r: bool)
        ensures
            r == self.secure,
    {
        self.secure
    }

    /// The connection has come to its end.
    pub fn is_terminal(&self) -> (r: bool)
        ensures
            r == self.terminal,
    {
        self.terminal
    }
}

/// All that belongs to one connection: its transport, its decoder, who the
/// client is, the operations under way, and the directory and the schema
/// validator that they use.
#[derive(Debug)]
pub struct ConnectionFsmSet<T, D, B, V> {
    pub connection: ConnectionFsmImpl<T>,
    pub decoder: D,
    pub auth: AuthenticationFsm,
    pub operations: FsmOperationRegistry,
    pub backend: B,
    pub schema_validator: V,
}

impl<T, D, B, V> ConnectionFsmSet<T, D, B, V> {
    /// The operations are in order.
    pub open spec fn wf(self) -> bool {
        self.operations.wf()
    }

    /// A new connection over a transport that is there already, with the
    /// usual schema validator.
    pub fn new_with_transport(
        transport: T,
        peer_addr: Option<String>,
        secure: bool,
        decoder: D,
        backend: B,
        usual_validator: V,
    ) -> (r: Self)
        ensures
            r.wf(),
            r.connection.transport == transport,
            r.connection.remote_addr@ == (match peer_addr {
                Some(addr) => addr@,
                None => "unknown"@,
            }),
            r.connection.secure == secure,
            !r.connection.terminal,
            r.decoder == decoder,
            r.auth.identity() is None,
            r.auth is Simple,
            r.operations.entries@ == Seq::<RegisteredOperation>::empty(),
            r.backend == backend,
            r.schema_validator == usual_validator,
    {
        Self::new_with_transport_and_schema_validator(
            transport,
            peer_addr,
            secure,
            decoder,
            backend,
            None,
            usual_validator,
        )
    }

    /// A new connection over a transport that is there already. Without a
    /// schema validator of its own it uses the usual one.
    pub fn new_with_transport_and_schema_validator(
        transport: T,
        peer_addr: Option<String>,
        secure: bool,
        decoder: D,
        backend: B,
        schema_validator: Option<V>,
        usual_validator: V,
    ) -> (r: Self)
        ensures
            r.wf(),
            r.connection.transport == transport,
            r.connection.remote_addr@ == (match peer_addr {
                Some(addr) => addr@,
                None => "unknown"@,
            }),
            r.connection.secure == secure,
            !r.connection.terminal,
            r.decoder == decoder,
            r.auth.identity() is None,
            r.auth is Simple,
            r.operations.entries@ == Seq::<RegisteredOperation>::empty(),
            r.backend == backend,
            r.schema_validator == (match schema_validator {
                Some(v) => v,
                None => usual_validator,
            }),
    {
        let remote_addr = match peer_addr {
            Some(addr) => addr,
            None => "unknown".to_owned(),
        };
        let schema_validator = match schema_validator {
            Some(v) => v,
            None => usual_validator,
        };
        ConnectionFsmSet {
            connection: ConnectionFsmImpl { transport, remote_addr, secure, terminal: false },
            decoder,
            auth: AuthenticationFsm::Simple(AuthFsmImpl::new()),
            operations: FsmOperationRegistry::new(),
            backend,
            schema_validator,
        }
    }

    pub fn schema_validator(&self) -> (r: &V)
        ensures
            *r == self.schema_validator,
    {
        &self.schema_validator
    }

    pub fn connection(&self) -> (r: &ConnectionFsmImpl<T>)
        ensures
            *r == self.connection,
    {
        &self.connection
    }

    pub fn connection_mut(&mut self) -> (r: &mut ConnectionFsmImpl<T>)
        ensures
            *r == old(self).connection,
            *final(self) == (ConnectionFsmSet { connection: *final(r), ..*old(self) }),
    {
        &mut self.connection
    }

    pub fn decoder(&self) -> (r: &D)
        ensures
            *r == self.decoder,
    {
        &self.decoder
    }

    pub fn decoder_mut(&mut self) -> (r: &mut D)
        ensures
            *r == old(self).decoder,
            *final(self) == (ConnectionFsmSet { decoder: *final(r), ..*old(self) }),
    {
        &mut self.decoder
    }

    pub fn auth(&self) -> (r: &AuthenticationFsm)
        ensures
            *r == self.auth,
    {
        &self.auth
    }

    pub fn auth_mut(&mut self) -> (r: &mut AuthenticationFsm)
        ensures
            *r == old(self).auth,
            *final(self) == (ConnectionFsmSet { auth: *final(r), ..*old(self) }),
    {
        &mut self.auth
    }

    /// The name under which the client is known.
    pub fn authenticated_dn(&self) -> (r: Option<&str>)
        ensures
            match r {
                Some(dn) => self.auth.identity() == Some(dn@),
                None => self.auth.identity() is None,
            },
    {
        self.auth.authenticated_dn()
    }

    /// The client is known.
    pub fn is_authenticated(&self) -> (r: bool)
        ensures
            r == (self.auth.identity() is Some),
    {
        self.auth.is_authenticated()
    }

    pub fn operation_registry(&self) -> (r: &FsmOperationRegistry)
        ensures
            *r == self.operations,
    {
        &self.operations
    }

    pub fn operation_registry_mut(&mut self) -> (r: &mut FsmOperationRegistry)
        ensures
            *r == old(self).operations,
            *final(self) == (ConnectionFsmSet { operations: *final(r), ..*old(self) }),
    {
        &mut self.operations
    }

    /// Takes up an operation under a message ID that is not in use.
    pub fn add_operation(
        &mut self,
        message_id: i32,
        operation: OperationFsm,
        operation_type: OperationType,
    ) -> (r: Result<(), String>)
        requires
            old(self).wf(),
        ensures
            final(self).wf(),
            *final(self) == (ConnectionFsmSet { operations: final(self).operations, ..*old(self) }),
            final(self).operations.start == old(self).operations.start,
            match r {
                Ok(_) => {
                    let before = old(self).operations.entries@;
                    let after = final(self).operations.entries@;
                    &&& id_place(before, message_id) == before.len()
                    &&& after.drop_last() == before
                    &&& after.len() == before.len() + 1
                    &&& after.last().operation == operation
                    &&& after.last().info.message_id == message_id
                    &&& after.last().info.operation_type == operation_type
                },
                Err(e) => {
                    &&& id_place(old(self).operations.entries@, message_id)
                        < old(self).operations.entries@.len()
                    &&& final(self).operations == old(self).operations
                    &&& e@ == id_in_use_text(message_id)
                },
            },
    {
        self.operations.add_operation(message_id, operation, operation_type)
    }

    /// The operation under a message ID, to be changed.
    pub fn get_operation_mut(&mut self, message_id: i32) -> (r: Option<&mut OperationFsm>)
        requires
            old(self).wf(),
        ensures
            final(self).wf(),
            *final(self) == (ConnectionFsmSet { operations: final(self).operations, ..*old(self) }),
            final(self).operations.start == old(self).operations.start,
            match r {
                Some(op) => {
                    let before = old(self).operations.entries@;
                    let i = id_place(before, message_id);
                    &&& i < before.len()
                    &&& *op == before[i].operation
                    &&& final(self).operations.entries@ == before.update(
                        i,
                        RegisteredOperation { operation: *final(op), ..before[i] },
                    )
                },
                None => id_place(old(self).operations.entries@, message_id)
                    == old(self).operations.entries@.len() && final(self).operations
                    == old(self).operations,
            },
    {
        self.operations.get_mut(message_id)
    }

    /// The operation under a message ID.
    pub fn get_operation(&self, message_id: i32) -> (r: Option<&OperationFsm>)
        ensures
            match r {
                Some(op) => {
                    let i = id_place(self.operations.entries@, message_id);
                    i < self.operations.entries@.len() && *op
                        == self.operations.entries@[i].operation
                },
                None => id_place(self.operations.entries@, message_id)
                    == self.operations.entries@.len(),
            },
    {
        self.operations.get(message_id)
    }

    /// Gives up the operation under a message ID.
    pub fn remove_operation(&mut self, message_id: i32) -> (r: Option<OperationFsm>)
        requires
            old(self).wf(),
        ensures
            final(self).wf(),
            *final(self) == (ConnectionFsmSet { operations: final(self).operations, ..*old(self) }),
            final(self).operations.start == old(self).operations.start,
            match r {
                Some(op) => {
                    let before = old(self).operations.entries@;
                    let i = id_place(before, message_id);
                    &&& i < before.len()
                    &&& op == before[i].operation
                    &&& final(self).operations.entries@ == before.remove(i)
                },
                None => id_place(old(self).operations.entries@, message_id)
                    == old(self).operations.entries@.len() && final(self).operations
                    == old(self).operations,
            },
    {
        self.operations.remove(message_id)
    }

    /// Gives up the operations that have come to their end, and tells how
    /// many.
    pub fn cleanup_terminal_operations(&mut self) -> (r: usize)
        requires
            old(self).wf(),
        ensures
            final(self).wf(),
            *final(self) == (ConnectionFsmSet { operations: final(self).operations, ..*old(self) }),
            final(self).operations.start == old(self).operations.start,
            final(self).operations.entries@ == staying(
                old(self).operations.entries@,
                ended_marks(old(self).operations.entries@),
            ),
            r == old(self).operations.entries@.len() - final(self).operations.entries@.len(),
    {
        self.operations.cleanup_terminal()
    }

    pub fn active_operation_count(&self) -> (r: usize)
        ensures
            r == self.operations.entries@.len(),
    {
        self.operations.len()
    }

    /// What is known of each operation.
    pub fn active_operations(&self) -> (r: Vec<OperationInfo>)
        ensures
            r@ == self.operations.entries@.map_values(|e: RegisteredOperation| e.info),
    {
        self.operations.active_operations()
    }

    pub fn backend(&self) -> (r: &B)
        ensures
            *r == self.backend,
    {
        &self.backend
    }

    /// The connection has come to its end.
    pub fn is_terminal(&self) -> (r: bool)
        ensures
            r == self.connection.terminal,
    {
        self.connection.is_terminal()
    }

    /// Gives up the operations that are older than the greatest age, and
    /// tells how many.
    pub fn cleanup_timed_out_operations(&mut self, max_operation_age: Duration) -> (r: usize)
        requires
            old(self).wf(),
        ensures
            final(self).wf(),
            *final(self) == (ConnectionFsmSet { operations: final(self).operations, ..*old(self) }),
            final(self).operations.start == old(self).operations.start,
            exists|now: nat|
                final(self).operations.entries@ == staying(
                    old(self).operations.entries@,
                    older_marks(
                        #[trigger] ages_at(old(self).operations.entries@, now),
                        max_operation_age@,
                    ),
                ),
            r == old(self).operations.entries@.len() - final(self).operations.entries@.len(),
    {
        self.operations.cleanup_timed_out_operations(max_operation_age)
    }

    /// The message IDs of the operations that will soon be too old.
    pub fn get_operations_approaching_timeout(
        &self,
        warning_threshold: Duration,
        max_operation_age: Duration,
    ) -> (r: Vec<i32>)
        ensures
            exists|now: nat|
                r@ == approaching_ids(
                    self.operations.entries@,
                    #[trigger] ages_at(self.operations.entries@, now),
                    warning_threshold@,
                    max_operation_age@,
                ),
    {
        self.operations.get_operations_approaching_timeout(warning_threshold, max_operation_age)
    }
}

// ---------------------------------------------------------------------------
// Laws
// ---------------------------------------------------------------------------

/// An operation that was taken up is found under its message ID, and no other
/// message ID changes.
pub proof fn taken_up_operation_is_found(
    s: Seq<RegisteredOperation>,
    taken: RegisteredOperation,
    id: i32,
)
    requires
        id_place(s, taken.info.message_id) == s.len(),
    ensures
        id_place(s.push(taken), taken.info.message_id) == s.len(),
        id != taken.info.message_id && id_place(s, id) < s.len() ==> id_place(s.push(taken), id)
            == id_place(s, id),
        id != taken.info.message_id && id_place(s, id) == s.len() ==> id_place(s.push(taken), id)
            == s.len() + 1,
    decreases s.len(),
{
    let all = s.push(taken);
    reveal_with_fuel(id_place, 2);
    if s.len() == 0 {
        assert(all.drop_first() =~= Seq::<RegisteredOperation>::empty());
    } else {
        assert(s[0].info.message_id != taken.info.message_id);
        let rest = s.drop_first();
        assert(all.drop_first() =~= rest.push(taken));
        taken_up_operation_is_found(rest, taken, id);
        id_place_bounds(rest, id);
    }
}

/// After the operations that have ended are given up, none that is left has
/// ended, and none that has not ended is lost.
pub proof fn cleanup_gives_up_the_ended(s: Seq<RegisteredOperation>, i: int)
    ensures
        0 <= i < staying(s, ended_marks(s)).len() ==> !operation_ended(
            staying(s, ended_marks(s))[i].operation,
        ),
        0 <= i < s.len() && !operation_ended(s[i].operation) ==> staying(
            s,
            ended_marks(s),
        ).contains(s[i]),
{
    staying_keeps_unmarked(s, ended_marks(s), i);
    if 0 <= i < staying(s, ended_marks(s)).len() {
        staying_drops_marked(s, ended_marks(s), i);
    }
}

proof fn staying_keeps_unmarked(s: Seq<RegisteredOperation>, gone: Seq<bool>, i: int)
    ensures
        0 <= i < s.len() && !(i < gone.len() && gone[i]) ==> staying(s, gone).contains(s[i]),
    decreases s.len(),
{
    if s.len() > 0 && 0 <= i < s.len() && !(i < gone.len() && gone[i]) {
        let front = s.drop_last();
        let before = staying(front, gone);
        let all = staying(s, gone);
        if i < front.len() {
            staying_keeps_unmarked(front, gone, i);
            let k = choose|k: int| 0 <= k < before.len() && before[k] == front[i];
            assert(all[k] == s[i]);
        } else {
            assert(all[before.len() as int] == s[i]);
        }
    }
}

proof fn staying_drops_marked(s: Seq<RegisteredOperation>, gone: Seq<bool>, k: int)
    requires
        0 <= k < staying(s, gone).len(),
    ensures
        exists|i: int|
            0 <= i < s.len() && #[trigger] s[i] == staying(s, gone)[k] && !(i < gone.len()
                && gone[i]),
    decreases s.len(),
{
    let front = s.drop_last();
    let before = staying(front, gone);
    let all = staying(s, gone);
    if k < before.len() {
        staying_drops_marked(front, gone, k);
        let i = choose|i: int|
            0 <= i < front.len() && #[trigger] front[i] == before[k] && !(i < gone.len()
                && gone[i]);
        assert(s[i] == all[k]);
    } else {
        assert(s[s.len() - 1] == all[k]);
    }
}

/// An operation that is not older than the greatest age stays.
pub proof fn young_operations_stay(
    s: Seq<RegisteredOperation>,
    ages: Seq<nat>,
    max_operation_age: nat,
    i: int,
)
    requires
        ages.len() == s.len(),
        0 <= i < s.len(),
        ages[i] <= max_operation_age,
    ensures
        staying(s, older_marks(ages, max_operation_age)).contains(s[i]),
{
    staying_keeps_unmarked(s, older_marks(ages, max_operation_age), i);
}

/// An operation that is older than the greatest age is given up.
pub proof fn overdue_operations_go(
    s: Seq<RegisteredOperation>,
    ages: Seq<nat>,
    max_operation_age: nat,
    i: int,
)
    requires
        distinct_ids(s),
        ages.len() == s.len(),
        0 <= i < s.len(),
        ages[i] > max_operation_age,
    ensures
        !staying(s, older_marks(ages, max_operation_age)).contains(s[i]),
{
    let gone = older_marks(ages, max_operation_age);
    let kept = staying(s, gone);
    if kept.contains(s[i]) {
        let k = choose|k: int| 0 <= k < kept.len() && kept[k] == s[i];
        staying_drops_marked(s, gone, k);
        let j = choose|j: int|
            0 <= j < s.len() && #[trigger] s[j] == kept[k] && !(j < gone.len() && gone[j]);
        if i < j {
            assert(s[i].info.message_id != s[j].info.message_id);
        } else if j < i {
            assert(s[j].info.message_id != s[i].info.message_id);
        }
    }
}

} // verus!
