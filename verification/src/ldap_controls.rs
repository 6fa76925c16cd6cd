//! LDAP controls: those of a request, and the registry of those that the
//! server knows.

use vstd::prelude::*;

use crate::text;

verus! {

/// A control of a request or a response.
#[derive(Debug, PartialEq, Eq)]
pub struct LdapControl {
    pub(crate) oid: String,
    pub(crate) criticality: bool,
    pub(crate) value: Option<Vec<u8>>,
}

/// What a [`LdapControl`] says.
pub struct ControlView {
    pub oid: Seq<char>,
    pub criticality: bool,
    pub value: Option<Seq<u8>>,
}

/// The bytes of an optional byte vector.
pub open spec fn option_bytes(v: Option<Vec<u8>>) -> Option<Seq<u8>> {
    match v {
        Some(v) => Some(v@),
        None => None,
    }
}

impl View for LdapControl {
    type V = ControlView;

    closed spec fn view(&self) -> ControlView {
        ControlView {
            oid: self.oid@,
            criticality: self.criticality,
            value: option_bytes(self.value),
        }
    }
}

/// A copy of a byte vector.
pub fn copy_bytes(v: &Vec<u8>) -> (r: Vec<u8>)
    ensures
        r@ == v@,
{
    let mut out: Vec<u8> = Vec::new();
    let mut i: usize = 0;
    while i < v.len()
        invariant
            i <= v@.len(),
            out@ == v@.take(i as int),
        decreases v@.len() - i,
    {
        out.push(v[i]);
        proof {
            assert(v@.take(i as int + 1) =~= v@.take(i as int).push(v@[i as int]));
        }
        i = i + 1;
    }
    proof {
        assert(v@.take(i as int) =~= v@);
    }
    out
}

impl LdapControl {
    pub fn new(oid: &str, criticality: bool, value: Option<Vec<u8>>) -> (r: Self)
        ensures
            r@ == (ControlView { oid: oid@, criticality, value: option_bytes(value) }),
    {
        LdapControl { oid: oid.to_owned(), criticality, value }
    }

    pub fn oid(&self) -> (r: &str)
        ensures
            r@ == self@.oid,
    {
        self.oid.as_str()
    }

    pub fn criticality(&self) -> (r: bool)
        ensures
            r == self@.criticality,
    {
        self.criticality
    }

    pub fn value(&self) -> (r: Option<&[u8]>)
        ensures
            match r {
                Some(b) => self@.value == Some(b@),
                None => self@.value is None,
            },
    {
        match &self.value {
            Some(v) => Some(v.as_slice()),
            None => None,
        }
    }

    /// A copy that says the same.
    pub fn copy(&self) -> (r: Self)
        ensures
            r@ == self@,
    {
        LdapControl {
            oid: self.oid.clone(),
            criticality: self.criticality,
            value: match &self.value {
                Some(v) => Some(copy_bytes(v)),
                None => None,
            },
        }
    }
}

/// What the controls of a list say.
pub open spec fn control_views(cs: Seq<LdapControl>) -> Seq<ControlView> {
    cs.map_values(|c: LdapControl| c@)
}

/// The control has that identifier, without case.
pub open spec fn is_control(c: ControlView, oid: Seq<char>) -> bool {
    text::lower(c.oid) == text::lower(oid)
}

/// The number of controls with that identifier.
pub open spec fn occurrences(cs: Seq<ControlView>, oid: Seq<char>) -> nat
    decreases cs.len(),
{
    if cs.len() == 0 {
        0
    } else {
        occurrences(cs.drop_last(), oid) + (if is_control(cs.last(), oid) {
            1nat
        } else {
            0nat
        })
    }
}

/// Controls occur with an identifier exactly where one of them has it.
pub proof fn occurrences_positive(cs: Seq<ControlView>, oid: Seq<char>)
    ensures
        occurrences(cs, oid) <= cs.len(),
        occurrences(cs, oid) > 0 <==> exists|i: int|
            0 <= i < cs.len() && is_control(#[trigger] cs[i], oid),
    decreases cs.len(),
{
    if cs.len() > 0 {
        let front = cs.drop_last();
        occurrences_positive(front, oid);
        if occurrences(front, oid) > 0 {
            let i = choose|i: int| 0 <= i < front.len() && is_control(#[trigger] front[i], oid);
            assert(cs[i] == front[i]);
        }
        if exists|i: int| 0 <= i < cs.len() && is_control(#[trigger] cs[i], oid) {
            let i = choose|i: int| 0 <= i < cs.len() && is_control(#[trigger] cs[i], oid);
            if i < front.len() {
                assert(front[i] == cs[i]);
            }
        }
        if is_control(cs.last(), oid) {
            assert(cs[cs.len() - 1] == cs.last());
        }
    }
}

/// The first control with that identifier.
pub open spec fn first_control(cs: Seq<ControlView>, oid: Seq<char>) -> Option<ControlView>
    decreases cs.len(),
{
    if cs.len() == 0 {
        None
    } else if is_control(cs[0], oid) {
        Some(cs[0])
    } else {
        first_control(cs.drop_first(), oid)
    }
}

proof fn first_control_at(cs: Seq<ControlView>, oid: Seq<char>, k: int)
    requires
        0 <= k < cs.len(),
        is_control(cs[k], oid),
        forall|j: int| 0 <= j < k ==> !is_control(#[trigger] cs[j], oid),
    ensures
        first_control(cs, oid) == Some(cs[k]),
    decreases cs.len(),
{
    if k > 0 {
        assert(!is_control(cs[0], oid));
        let rest = cs.drop_first();
        assert forall|j: int| 0 <= j < k - 1 implies !is_control(#[trigger] rest[j], oid) by {
            assert(rest[j] == cs[j + 1]);
        }
        first_control_at(rest, oid, k - 1);
    }
}

/// Why a control could not be looked up.
#[derive(Debug, PartialEq, Eq)]
pub enum ControlLookupError {
    DuplicateControl { oid: String, count: usize },
}

/// The text of a lookup error.
pub open spec fn lookup_error_text(oid: Seq<char>, count: nat) -> Seq<char> {
    "control "@ + oid + " was provided "@ + text::decimal(count) + " times"@
}

impl ControlLookupError {
    /// The text of the error.
    pub fn message(&self) -> (r: String)
        ensures
            self matches ControlLookupError::DuplicateControl { oid, count } && r@
                == lookup_error_text(oid@, count as nat),
    {
        match self {
            ControlLookupError::DuplicateControl { oid, count } => {
                let mut out = "control ".to_owned();
                out.append(oid.as_str());
                out.append(" was provided ");
                out.append(text::decimal_of(*count as u64).as_str());
                out.append(" times");
                out
            },
        }
    }
}

/// The controls of a request.
#[derive(Debug, PartialEq, Eq)]
pub struct RequestControls {
    controls: Vec<LdapControl>,
}

impl View for RequestControls {
    type V = Seq<ControlView>;

    closed spec fn view(&self) -> Seq<ControlView> {
        control_views(self.controls@)
    }
}

impl RequestControls {
    pub fn new(controls: Vec<LdapControl>) -> (r: Self)
        ensures
            r@ == control_views(controls@),
    {
        RequestControls { controls }
    }

    pub fn is_empty(&self) -> (r: bool)
        ensures
            r == (self@.len() == 0),
    {
        self.controls.len() == 0
    }

    pub fn len(&self) -> (r: usize)
        ensures
            r == self@.len(),
    {
        self.controls.len()
    }

    /// The controls in their order.
    pub fn iter(&self) -> (r: std::slice::Iter<'_, LdapControl>)
        ensures
            control_views(
                vstd::std_specs::iter::IteratorSpec::remaining(&r).unref(),
            ) == self@,
    {
        let r = self.controls.as_slice().iter();
        proof {
            broadcast use vstd::std_specs::slice::axiom_spec_slice_iter;
            assert(vstd::std_specs::iter::IteratorSpec::remaining(&r).unref() =~= self.controls@);
        }
        r
    }

    pub fn as_slice(&self) -> (r: &[LdapControl])
        ensures
            control_views(r@) == self@,
    {
        self.controls.as_slice()
    }

    /// The control with that identifier, if there is one; more than one is an
    /// error that tells how many there are.
    pub fn singleton(&self, oid: &str) -> (r: Result<Option<&LdapControl>, ControlLookupError>)
        ensures
            match r {
                Ok(Some(c)) => occurrences(self@, oid@) == 1 && first_control(self@, oid@) == Some(
                    c@,
                ),
                Ok(None) => occurrences(self@, oid@) == 0,
                Err(ControlLookupError::DuplicateControl { oid: o, count }) => occurrences(
                    self@,
                    oid@,
                ) > 1 && count == occurrences(self@, oid@) && o@ == oid@,
            },
    {
        let ghost cs = self@;
        let mut first: Option<usize> = None;
        let mut count: usize = 0;
        let mut i: usize = 0;
        while i < self.controls.len()
            invariant
                cs == self@,
                i <= self.controls@.len(),
                count == occurrences(cs.take(i as int), oid@),
                count <= i,
                match first {
                    Some(k) => k < i && is_control(cs[k as int], oid@) && count > 0 && forall|
                        j: int,
                    |
                        0 <= j < k ==> !is_control(#[trigger] cs[j], oid@),
                    None => count == 0 && forall|j: int|
                        0 <= j < i ==> !is_control(#[trigger] cs[j], oid@),
                },
            decreases self.controls@.len() - i,
        {
            proof {
                assert(cs.take(i as int + 1).drop_last() =~= cs.take(i as int));
                assert(cs.take(i as int + 1).last() == self.controls@[i as int]@);
            }
            if text::eq_ignore_case(self.controls[i].oid(), oid) {
                if first.is_none() {
                    first = Some(i);
                }
                count = count + 1;
            }
            i = i + 1;
        }
        proof {
            assert(cs.take(i as int) =~= cs);
        }
        if count > 1 {
            return Err(ControlLookupError::DuplicateControl { oid: oid.to_owned(), count });
        }
        match first {
            Some(k) => {
                proof {
                    assert(cs[k as int] == self.controls@[k as int]@);
                    first_control_at(cs, oid@, k as int);
                }
                Ok(Some(&self.controls[k]))
            },
            None => Ok(None),
        }
    }
}

impl Default for RequestControls {
    fn default() -> (r: Self)
        ensures
            r@ == Seq::<ControlView>::empty(),
    {
        let r = RequestControls { controls: Vec::new() };
        proof {
            assert(r@ =~= Seq::<ControlView>::empty());
        }
        r
    }
}

/// The controls of a request, told apart by whether the server knows them.
#[derive(Debug, PartialEq, Eq)]
pub struct ValidatedRequestControls {
    accepted: RequestControls,
    ignored: Vec<LdapControl>,
}

/// What [`ValidatedRequestControls`] say.
pub struct ValidatedView {
    pub accepted: Seq<ControlView>,
    pub ignored: Seq<ControlView>,
}

impl View for ValidatedRequestControls {
    type V = ValidatedView;

    closed spec fn view(&self) -> ValidatedView {
        ValidatedView { accepted: self.accepted@, ignored: control_views(self.ignored@) }
    }
}

impl ValidatedRequestControls {
    pub fn accepted(&self) -> (r: &RequestControls)
        ensures
            r@ == self@.accepted,
    {
        &self.accepted
    }

    pub fn into_accepted(self) -> (r: RequestControls)
        ensures
            r@ == self@.accepted,
    {
        self.accepted
    }

    pub fn ignored(&self) -> (r: &[LdapControl])
        ensures
            control_views(r@) == self@.ignored,
    {
        self.ignored.as_slice()
    }
}

impl Default for ValidatedRequestControls {
    fn default() -> (r: Self)
        ensures
            r@.accepted == Seq::<ControlView>::empty(),
            r@.ignored == Seq::<ControlView>::empty(),
    {
        let r = ValidatedRequestControls {
            accepted: RequestControls::default(),
            ignored: Vec::new(),
        };
        proof {
            assert(r@.ignored =~= Seq::<ControlView>::empty());
        }
        r
    }
}

/// Why the controls of a request are refused.
#[derive(Debug, PartialEq, Eq)]
pub enum ControlValidationError {
    UnknownCritical { oid: String },
}

impl ControlValidationError {
    /// The text of the error.
    pub fn message(&self) -> (r: String)
        ensures
            self matches ControlValidationError::UnknownCritical { oid } && r@
                == "unknown critical control "@ + oid@,
    {
        match self {
            ControlValidationError::UnknownCritical { oid } => {
                let mut out = "unknown critical control ".to_owned();
                out.append(oid.as_str());
                out
            },
        }
    }
}

/// The registry of the controls that the server knows. Identifiers are
/// compared with their case.
#[derive(Debug)]
pub struct ControlRegistry {
    request_controls: Vec<String>,
    response_controls: Vec<String>,
}

/// What a [`ControlRegistry`] holds.
pub struct RegistryView {
    pub request: Set<Seq<char>>,
    pub response: Set<Seq<char>>,
}

impl View for ControlRegistry {
    type V = RegistryView;

    closed spec fn view(&self) -> RegistryView {
        RegistryView {
            request: text::texts(self.request_controls@).to_set(),
            response: text::texts(self.response_controls@).to_set(),
        }
    }
}

/// The texts stand in ascending order, none of them twice.
pub open spec fn ascending(s: Seq<Seq<char>>) -> bool {
    forall|i: int, j: int| 0 <= i < j < s.len() ==> text::less(#[trigger] s[i], #[trigger] s[j])
}

/// What is to become of the controls of a request: those that the server
/// knows are accepted, of the others the critical ones refuse the request and
/// the rest is ignored.
pub open spec fn validated(request: Set<Seq<char>>, cs: Seq<ControlView>) -> Result<
    ValidatedView,
    Seq<char>,
>
    decreases cs.len(),
{
    if cs.len() == 0 {
        Ok(ValidatedView { accepted: Seq::empty(), ignored: Seq::empty() })
    } else if !request.contains(cs[0].oid) && cs[0].criticality {
        Err(cs[0].oid)
    } else {
        match validated(request, cs.drop_first()) {
            Err(e) => Err(e),
            Ok(v) => if request.contains(cs[0].oid) {
                Ok(ValidatedView { accepted: seq![cs[0]] + v.accepted, ..v })
            } else {
                Ok(ValidatedView { ignored: seq![cs[0]] + v.ignored, ..v })
            },
        }
    }
}

proof fn set_of_push(v: Seq<String>, s: String)
    ensures
        text::texts(v.push(s)).to_set() == text::texts(v).to_set().insert(s@),
{
    text::texts_push(v, s);
    text::set_of_push(text::texts(v), s@);
}

fn contains(v: &Vec<String>, s: &str) -> (r: bool)
    ensures
        r == text::texts(v@).to_set().contains(s@),
{
    crate::directory::contains_string(v, s)
}

/// Puts a string into its place among ascending strings, unless it is there.
pub(crate) fn insert_ascending(v: &mut Vec<String>, s: &String)
    requires
        ascending(text::texts(old(v)@)),
    ensures
        ascending(text::texts(final(v)@)),
        text::texts(final(v)@).to_set() == text::texts(old(v)@).to_set().insert(s@),
{
    let ghost before = text::texts(v@);
    let mut i: usize = 0;
    while i < v.len() && text::is_less(v[i].as_str(), s.as_str())
        invariant
            before == text::texts(v@),
            i <= v@.len(),
            forall|j: int| 0 <= j < i ==> text::less(#[trigger] before[j], s@),
        decreases v@.len() - i,
    {
        proof {
            assert(before[i as int] == v@[i as int]@);
        }
        i = i + 1;
    }
    if i < v.len() && text::same(v[i].as_str(), s.as_str()) {
        proof {
            assert(before[i as int] == s@);
            assert(before.to_set() =~= before.to_set().insert(s@));
        }
        return ;
    }
    let ghost plain = v@;
    v.insert(i, s.clone());
    proof {
        let now = text::texts(v@);
        assert(now =~= before.insert(i as int, s@));
        if i < before.len() {
            assert(before[i as int] == plain[i as int]@);
            text::less_total(before[i as int], s@);
        }
        assert forall|a: int, b: int| 0 <= a < b < now.len() implies text::less(
            #[trigger] now[a],
            #[trigger] now[b],
        ) by {
            if b < i {
                assert(now[a] == before[a] && now[b] == before[b]);
            } else if a < i && b == i {
                assert(now[a] == before[a]);
            } else if a < i && b > i {
                assert(now[a] == before[a] && now[b] == before[b - 1]);
            } else if a == i {
                assert(now[b] == before[b - 1]);
                if b - 1 > i {
                    assert(text::less(before[i as int], before[b - 1]));
                    text::less_transitive(s@, before[i as int], before[b - 1]);
                }
            } else {
                assert(now[a] == before[a - 1] && now[b] == before[b - 1]);
            }
        }
        assert(now.to_set() =~= before.to_set().insert(s@)) by {
            assert forall|x: Seq<char>| now.contains(x) <==> (before.contains(x) || x == s@) by {
                if before.contains(x) {
                    let k = choose|k: int| 0 <= k < before.len() && before[k] == x;
                    if k < i {
                        assert(now[k] == x);
                    } else {
                        assert(now[k + 1] == x);
                    }
                }
                if x == s@ {
                    assert(now[i as int] == x);
                }
                if now.contains(x) {
                    let k = choose|k: int| 0 <= k < now.len() && now[k] == x;
                    if k < i {
                        assert(before[k] == x);
                    } else if k > i {
                        assert(before[k - 1] == x);
                    }
                }
            }
        }
    }
}

fn insert_all_ascending(v: &mut Vec<String>, more: &Vec<String>)
    requires
        ascending(text::texts(old(v)@)),
    ensures
        ascending(text::texts(final(v)@)),
        text::texts(final(v)@).to_set() == text::texts(old(v)@).to_set().union(
            text::texts(more@).to_set(),
        ),
{
    let ghost start = text::texts(v@).to_set();
    let ghost ms = text::texts(more@);
    let mut i: usize = 0;
    proof {
        assert(start.union(ms.take(0).to_set()) =~= start);
    }
    while i < more.len()
        invariant
            ms == text::texts(more@),
            i <= more@.len(),
            ascending(text::texts(v@)),
            text::texts(v@).to_set() == start.union(ms.take(i as int).to_set()),
        decreases more@.len() - i,
    {
        insert_ascending(v, &more[i]);
        proof {
            let a = ms.take(i as int);
            let b = ms.take(i as int + 1);
            assert(b =~= a.push(ms[i as int]));
            assert(ms[i as int] == more@[i as int]@);
            text::set_of_push(a, ms[i as int]);
            assert(start.union(a.to_set()).insert(ms[i as int]) =~= start.union(b.to_set()));
        }
        i = i + 1;
    }
    proof {
        assert(ms.take(i as int) =~= ms);
    }
}

impl ControlRegistry {
    /// Adds a control that requests may carry.
    pub fn register_request_control(&mut self, oid: &str) -> (r: &mut Self)
        ensures
            r@ == (RegistryView { request: old(self)@.request.insert(oid@), ..old(self)@ }),
            *final(self) == *final(r),
    {
        let s = oid.to_owned();
        if contains(&self.request_controls, oid) {
            proof {
                assert(self@.request.insert(oid@) =~= self@.request);
            }
        } else {
            proof {
                set_of_push(self.request_controls@, s);
            }
            self.request_controls.push(s);
        }
        self
    }

    /// Adds a control that responses may carry.
    pub fn register_response_control(&mut self, oid: &str) -> (r: &mut Self)
        ensures
            r@ == (RegistryView { response: old(self)@.response.insert(oid@), ..old(self)@ }),
            *final(self) == *final(r),
    {
        let s = oid.to_owned();
        if contains(&self.response_controls, oid) {
            proof {
                assert(self@.response.insert(oid@) =~= self@.response);
            }
        } else {
            proof {
                set_of_push(self.response_controls@, s);
            }
            self.response_controls.push(s);
        }
        self
    }

    /// Requests may carry the control.
    pub fn supports_request_control(&self, oid: &str) -> (r: bool)
        ensures
            r == self@.request.contains(oid@),
    {
        contains(&self.request_controls, oid)
    }

    /// The controls that requests or responses may carry, in ascending order,
    /// each once.
    pub fn supported_control_oids(&self) -> (r: Vec<String>)
        ensures
            ascending(text::texts(r@)),
            text::texts(r@).to_set() == self@.request.union(self@.response),
    {
        let mut out: Vec<String> = Vec::new();
        proof {
            assert(text::texts(out@).to_set().union(self@.request) =~= self@.request);
        }
        insert_all_ascending(&mut out, &self.request_controls);
        insert_all_ascending(&mut out, &self.response_controls);
        out
    }

    /// The controls of a request, told apart by whether the server knows
    /// them; an unknown critical control refuses the request.
    pub fn validate_request_controls(&self, controls: Option<&[LdapControl]>) -> (r: Result<
        ValidatedRequestControls,
        ControlValidationError,
    >)
        ensures
            match (r, validated(
                self@.request,
                match controls {
                    Some(cs) => control_views(cs@),
                    None => Seq::empty(),
                },
            )) {
                (Ok(v), Ok(w)) => v@ == w,
                (Err(ControlValidationError::UnknownCritical { oid }), Err(o)) => oid@ == o,
                _ => false,
            },
    {
        let list = match controls {
            Some(cs) => cs,
            None => {
                return Ok(ValidatedRequestControls::default());
            },
        };
        let ghost cs = control_views(list@);
        let mut accepted: Vec<LdapControl> = Vec::new();
        let mut ignored: Vec<LdapControl> = Vec::new();
        let mut i: usize = 0;
        proof {
            assert(cs.skip(0) =~= cs);
            if let Ok(v) = validated(self@.request, cs) {
                assert(control_views(accepted@) + v.accepted =~= v.accepted);
                assert(control_views(ignored@) + v.ignored =~= v.ignored);
            }
        }
        while i < list.len()
            invariant
                controls == Some(list),
                cs == control_views(list@),
                i <= list@.len(),
                validated(self@.request, cs) == (match validated(
                    self@.request,
                    cs.skip(i as int),
                ) {
                    Ok(v) => Ok::<ValidatedView, Seq<char>>(
                        ValidatedView {
                            accepted: control_views(accepted@) + v.accepted,
                            ignored: control_views(ignored@) + v.ignored,
                        },
                    ),
                    Err(e) => Err(e),
                }),
            decreases list@.len() - i,
        {
            proof {
                assert(cs.skip(i as int).drop_first() =~= cs.skip(i as int + 1));
                assert(cs.skip(i as int)[0] == list@[i as int]@);
            }
            let ghost rest = validated(self@.request, cs.skip(i as int + 1));
            let control = list[i].copy();
            if self.supports_request_control(control.oid()) {
                proof {
                    if let Ok(v) = rest {
                        assert(control_views(accepted@) + (seq![control@] + v.accepted)
                            =~= control_views(accepted@.push(control)) + v.accepted);
                    }
                }
                accepted.push(control);
            } else if control.criticality() {
                proof {
                    assert(validated(self@.request, cs.skip(i as int)) == Err::<
                        ValidatedView,
                        Seq<char>,
                    >(control@.oid));
                }
                return Err(
                    ControlValidationError::UnknownCritical { oid: control.oid().to_owned() },
                );
            } else {
                proof {
                    if let Ok(v) = rest {
                        assert(control_views(ignored@) + (seq![control@] + v.ignored)
                            =~= control_views(ignored@.push(control)) + v.ignored);
                    }
                }
                ignored.push(control);
            }
            i = i + 1;
        }
        proof {
            assert(control_views(accepted@) + Seq::<ControlView>::empty() =~= control_views(
                accepted@,
            ));
            assert(control_views(ignored@) + Seq::<ControlView>::empty() =~= control_views(
                ignored@,
            ));
        }
        Ok(ValidatedRequestControls { accepted: RequestControls::new(accepted), ignored })
    }
}

impl Default for ControlRegistry {
    fn default() -> (r: Self)
        ensures
            r@.request == Set::<Seq<char>>::empty(),
            r@.response == Set::<Seq<char>>::empty(),
    {
        let r = ControlRegistry { request_controls: Vec::new(), response_controls: Vec::new() };
        proof {
            assert(r@.request =~= Set::<Seq<char>>::empty());
            assert(r@.response =~= Set::<Seq<char>>::empty());
        }
        r
    }
}

// ---------------------------------------------------------------------------
// Laws
// ---------------------------------------------------------------------------

/// The controls that the server knows in ascending order are one list only.
pub proof fn ascending_lists_are_unique(a: Seq<Seq<char>>, b: Seq<Seq<char>>)
    requires
        ascending(a),
        ascending(b),
        a.to_set() == b.to_set(),
    ensures
        a == b,
    decreases a.len(),
{
    assert forall|x: Seq<char>| #[trigger] a.contains(x) <==> b.contains(x) by {
        assert(a.to_set().contains(x) == a.contains(x));
        assert(b.to_set().contains(x) == b.contains(x));
    }
    if a.len() == 0 {
        if b.len() > 0 {
            assert(b.contains(b[0]));
            assert(a.contains(b[0]));
        }
        assert(a =~= b);
    } else {
        assert(a.contains(a[0]));
        let i = choose|i: int| 0 <= i < b.len() && b[i] == a[0];
        assert(b.contains(b[0]));
        assert(a.contains(b[0]));
        let k = choose|k: int| 0 <= k < a.len() && a[k] == b[0];
        if i > 0 {
            assert(text::less(b[0], b[i]));
            text::less_total(b[0], b[i]);
            if k > 0 {
                assert(text::less(a[0], a[k]));
            }
        }
        assert(a[0] == b[0]);
        let at = a.drop_first();
        let bt = b.drop_first();
        assert forall|m: int, n: int| 0 <= m < n < at.len() implies text::less(
            #[trigger] at[m],
            #[trigger] at[n],
        ) by {
            assert(text::less(a[m + 1], a[n + 1]));
        }
        assert forall|m: int, n: int| 0 <= m < n < bt.len() implies text::less(
            #[trigger] bt[m],
            #[trigger] bt[n],
        ) by {
            assert(text::less(b[m + 1], b[n + 1]));
        }
        assert(at.to_set() =~= bt.to_set()) by {
            assert forall|x: Seq<char>| at.contains(x) <==> bt.contains(x) by {
                if at.contains(x) {
                    let m = choose|m: int| 0 <= m < at.len() && at[m] == x;
                    assert(a[m + 1] == x);
                    assert(text::less(a[0], a[m + 1]));
                    text::less_total(a[0], x);
                    assert(a.contains(x));
                    assert(b.contains(x));
                    let n = choose|n: int| 0 <= n < b.len() && b[n] == x;
                    assert(bt[n - 1] == x);
                }
                if bt.contains(x) {
                    let m = choose|m: int| 0 <= m < bt.len() && bt[m] == x;
                    assert(b[m + 1] == x);
                    assert(text::less(b[0], b[m + 1]));
                    text::less_total(b[0], x);
                    assert(a.contains(x));
                    let n = choose|n: int| 0 <= n < a.len() && a[n] == x;
                    assert(at[n - 1] == x);
                }
            }
        }
        ascending_lists_are_unique(at, bt);
        assert(a =~= seq![a[0]] + at);
        assert(b =~= seq![b[0]] + bt);
    }
}

/// A request whose controls are accepted has none that is critical and
/// unknown; every control that is accepted is known, and none that is ignored
/// is known or critical.
pub proof fn validation_tells_controls_apart(request: Set<Seq<char>>, cs: Seq<ControlView>)
    requires
        validated(request, cs) is Ok,
    ensures
        forall|i: int|
            0 <= i < validated(request, cs)->Ok_0.accepted.len() ==> request.contains(
                (#[trigger] validated(request, cs)->Ok_0.accepted[i]).oid,
            ),
        forall|i: int|
            0 <= i < validated(request, cs)->Ok_0.ignored.len() ==> !request.contains(
                (#[trigger] validated(request, cs)->Ok_0.ignored[i]).oid,
            ) && !validated(request, cs)->Ok_0.ignored[i].criticality,
        validated(request, cs)->Ok_0.accepted.len() + validated(request, cs)->Ok_0.ignored.len()
            == cs.len(),
    decreases cs.len(),
{
    if cs.len() > 0 {
        let t = cs.drop_first();
        validation_tells_controls_apart(request, t);
        let v = validated(request, t)->Ok_0;
        let w = validated(request, cs)->Ok_0;
        assert forall|i: int| 0 <= i < w.accepted.len() implies request.contains(
            (#[trigger] w.accepted[i]).oid,
        ) by {
            if request.contains(cs[0].oid) {
                if i > 0 {
                    assert(w.accepted[i] == v.accepted[i - 1]);
                }
            } else {
                assert(w.accepted[i] == v.accepted[i]);
            }
        }
        assert forall|i: int| 0 <= i < w.ignored.len() implies !request.contains(
            (#[trigger] w.ignored[i]).oid,
        ) && !w.ignored[i].criticality by {
            if !request.contains(cs[0].oid) {
                if i > 0 {
                    assert(w.ignored[i] == v.ignored[i - 1]);
                }
            } else {
                assert(w.ignored[i] == v.ignored[i]);
            }
        }
    }
}

} // verus!
