//! What the server decides while it starts and stops: what its settings mean,
//! what the directory holds at first, and the order in which its parts come
//! and go.

use vstd::prelude::*;
use vstd::utf8;

use crate::directory;
use crate::directory::Attributes;
use crate::ldif;
use crate::ldif::InitialLdifEntry;
use crate::monitoring_runtime;
use crate::monitoring_runtime::{ComponentReport, ComponentStatus};
use crate::string_map;
use crate::text;

verus! {

// ---------------------------------------------------------------------------
// Settings
// ---------------------------------------------------------------------------

/// How much is written to the audit log.
#[derive(Debug, Clone, Copy, PartialEq, Eq, Structural)]
pub enum AuditLevel {
    Debug,
    Info,
    Warning,
    Error,
    Critical,
}

/// How the audit log is written.
#[derive(Debug, Clone, Copy, PartialEq, Eq, Structural)]
pub enum AuditFormat {
    Json,
    Syslog,
    Text,
}

/// What holds where no rule says otherwise.
#[derive(Debug, Clone, Copy, PartialEq, Eq, Structural)]
pub enum AccessPolicy {
    Permissive,
    Restrictive,
}

/// The oldest version of TLS that is spoken.
#[derive(Debug, Clone, Copy, PartialEq, Eq, Structural)]
pub enum TlsVersion {
    Tls12,
    Tls13,
}

/// Where the directory is kept.
#[derive(Debug, Clone, Copy, PartialEq, Eq, Structural)]
pub enum BackendKind {
    Lmdb,
    Memory,
}

/// What serves the clients.
#[derive(Debug, Clone, Copy, PartialEq, Eq, Structural)]
pub enum RuntimeKind {
    Legacy,
    Fsm,
}

/// The level of that name.
pub open spec fn audit_level(level: Seq<char>) -> Option<AuditLevel> {
    if level == "debug"@ {
        Some(AuditLevel::Debug)
    } else if level == "info"@ {
        Some(AuditLevel::Info)
    } else if level == "warning"@ {
        Some(AuditLevel::Warning)
    } else if level == "error"@ {
        Some(AuditLevel::Error)
    } else if level == "critical"@ {
        Some(AuditLevel::Critical)
    } else {
        None
    }
}

/// The format of that name.
pub open spec fn audit_format(format: Seq<char>) -> Option<AuditFormat> {
    if format == "json"@ {
        Some(AuditFormat::Json)
    } else if format == "syslog"@ {
        Some(AuditFormat::Syslog)
    } else if format == "text"@ {
        Some(AuditFormat::Text)
    } else {
        None
    }
}

/// The policy of that name.
pub open spec fn access_policy(policy: Seq<char>) -> Option<AccessPolicy> {
    if policy == "allow"@ {
        Some(AccessPolicy::Permissive)
    } else if policy == "deny"@ {
        Some(AccessPolicy::Restrictive)
    } else {
        None
    }
}

/// The version of that name.
pub open spec fn tls_version(version: Seq<char>) -> Option<TlsVersion> {
    if version == "1.2"@ {
        Some(TlsVersion::Tls12)
    } else if version == "1.3"@ {
        Some(TlsVersion::Tls13)
    } else {
        None
    }
}

/// The kind of backend of that name in lower case.
pub open spec fn backend_kind(name: Seq<char>) -> Option<BackendKind> {
    if name == "lmdb"@ {
        Some(BackendKind::Lmdb)
    } else if name == "memory"@ {
        Some(BackendKind::Memory)
    } else {
        None
    }
}

/// The runtime of that name.
pub open spec fn runtime_kind(name: Seq<char>) -> Option<RuntimeKind> {
    if name == "legacy"@ {
        Some(RuntimeKind::Legacy)
    } else if name == "fsm"@ {
        Some(RuntimeKind::Fsm)
    } else {
        None
    }
}

/// A setting is what its name says, or is refused in these words.
pub open spec fn setting_read<T>(r: Result<T, String>, meant: Option<T>, words: Seq<char>) -> bool {
    match (r, meant) {
        (Ok(v), Some(m)) => v == m,
        (Err(e), None) => e@ == words,
        _ => false,
    }
}

fn refusal(words: &str, name: &str) -> (r: String)
    ensures
        r@ == words@ + name@,
{
    let mut out = words.to_owned();
    out.append(name);
    out
}

/// The level of that name.
pub fn parse_audit_level(level: &str) -> (r: Result<AuditLevel, String>)
    ensures
        setting_read(r, audit_level(level@), "unsupported audit level: "@ + level@),
{
    if text::same(level, "debug") {
        Ok(AuditLevel::Debug)
    } else if text::same(level, "info") {
        Ok(AuditLevel::Info)
    } else if text::same(level, "warning") {
        Ok(AuditLevel::Warning)
    } else if text::same(level, "error") {
        Ok(AuditLevel::Error)
    } else if text::same(level, "critical") {
        Ok(AuditLevel::Critical)
    } else {
        Err(refusal("unsupported audit level: ", level))
    }
}

/// The format of that name.
pub fn parse_audit_format(format: &str) -> (r: Result<AuditFormat, String>)
    ensures
        setting_read(r, audit_format(format@), "unsupported audit format: "@ + format@),
{
    if text::same(format, "json") {
        Ok(AuditFormat::Json)
    } else if text::same(format, "syslog") {
        Ok(AuditFormat::Syslog)
    } else if text::same(format, "text") {
        Ok(AuditFormat::Text)
    } else {
        Err(refusal("unsupported audit format: ", format))
    }
}

/// The policy of that name.
pub fn parse_access_policy(policy: &str) -> (r: Result<AccessPolicy, String>)
    ensures
        setting_read(r, access_policy(policy@), "unsupported access control policy: "@ + policy@),
{
    if text::same(policy, "allow") {
        Ok(AccessPolicy::Permissive)
    } else if text::same(policy, "deny") {
        Ok(AccessPolicy::Restrictive)
    } else {
        Err(refusal("unsupported access control policy: ", policy))
    }
}

/// The version of that name.
pub fn parse_tls_version(version: &str) -> (r: Result<TlsVersion, String>)
    ensures
        setting_read(r, tls_version(version@), "unsupported TLS version configured: "@ + version@),
{
    if text::same(version, "1.2") {
        Ok(TlsVersion::Tls12)
    } else if text::same(version, "1.3") {
        Ok(TlsVersion::Tls13)
    } else {
        Err(refusal("unsupported TLS version configured: ", version))
    }
}

/// The kind of backend of that name in lower case.
pub fn backend_kind_of(lower_name: &str) -> (r: Result<BackendKind, String>)
    ensures
        setting_read(r, backend_kind(lower_name@), "Unsupported backend type: "@ + lower_name@),
{
    if text::same(lower_name, "lmdb") {
        Ok(BackendKind::Lmdb)
    } else if text::same(lower_name, "memory") {
        Ok(BackendKind::Memory)
    } else {
        Err(refusal("Unsupported backend type: ", lower_name))
    }
}

/// The kind of backend of that name, in whatever case it is written.
pub fn parse_backend_type(name: &str) -> (r: Result<BackendKind, String>)
    ensures
        setting_read(
            r,
            backend_kind(text::unicode_lower(name@)),
            "Unsupported backend type: "@ + text::unicode_lower(name@),
        ),
{
    backend_kind_of(text::unicode_lowercase(name).as_str())
}

/// The runtime of that name.
pub fn parse_runtime(name: &str) -> (r: Option<RuntimeKind>)
    ensures
        r == runtime_kind(name@),
{
    if text::same(name, "legacy") {
        Some(RuntimeKind::Legacy)
    } else if text::same(name, "fsm") {
        Some(RuntimeKind::Fsm)
    } else {
        None
    }
}

/// A size in whole mebibytes.
pub fn size_in_mebibytes(bytes: u64) -> (r: u64)
    ensures
        r == bytes as int / 1048576,
{
    bytes / 1048576
}

// ---------------------------------------------------------------------------
// Indexes
// ---------------------------------------------------------------------------

/// The indexes that are asked for on an attribute: each by its name, with the
/// kind that the backend knows by it.
#[derive(Debug)]
pub struct IndexSetting<T> {
    pub attribute: String,
    pub types: Vec<(String, Option<T>)>,
}

/// The indexes on an attribute.
#[derive(Debug)]
pub struct AttributeIndexConfig<T> {
    pub attribute: String,
    pub index_types: Vec<T>,
}

/// What an [`AttributeIndexConfig`] says.
pub struct IndexView<T> {
    pub attribute: Seq<char>,
    pub index_types: Seq<T>,
}

impl<T> View for AttributeIndexConfig<T> {
    type V = IndexView<T>;

    open spec fn view(&self) -> IndexView<T> {
        IndexView { attribute: self.attribute@, index_types: self.index_types@ }
    }
}

/// What indexes say.
pub open spec fn index_views<T>(v: Seq<AttributeIndexConfig<T>>) -> Seq<IndexView<T>> {
    v.map_values(|c: AttributeIndexConfig<T>| c@)
}

/// The kinds of the indexes, or the name of the first that is not known.
pub open spec fn known_types<T>(types: Seq<(String, Option<T>)>) -> Result<Seq<T>, Seq<char>>
    decreases types.len(),
{
    if types.len() == 0 {
        Ok(Seq::empty())
    } else {
        match known_types(types.drop_last()) {
            Err(name) => Err(name),
            Ok(before) => match types.last().1 {
                Some(t) => Ok(before.push(t)),
                None => Err(types.last().0@),
            },
        }
    }
}

/// The indexes that are asked for, or in words why they are refused.
pub open spec fn known_indexes<T>(settings: Seq<IndexSetting<T>>) -> Result<
    Seq<IndexView<T>>,
    Seq<char>,
>
    decreases settings.len(),
{
    if settings.len() == 0 {
        Ok(Seq::empty())
    } else {
        match known_indexes(settings.drop_last()) {
            Err(e) => Err(e),
            Ok(before) => match known_types(settings.last().types@) {
                Ok(index_types) => Ok(
                    before.push(
                        IndexView { attribute: settings.last().attribute@, index_types },
                    ),
                ),
                Err(name) => Err(
                    "unsupported index type for "@ + settings.last().attribute@ + ": "@ + name,
                ),
            },
        }
    }
}

proof fn types_stop<T>(types: Seq<(String, Option<T>)>, i: int)
    requires
        0 <= i <= types.len(),
        known_types(types.take(i)) is Err,
    ensures
        known_types(types) == known_types(types.take(i)),
    decreases types.len() - i,
{
    if i < types.len() {
        assert(types.take(i + 1).drop_last() =~= types.take(i));
        types_stop(types, i + 1);
    } else {
        assert(types.take(i) =~= types);
    }
}

proof fn indexes_stop<T>(settings: Seq<IndexSetting<T>>, i: int)
    requires
        0 <= i <= settings.len(),
        known_indexes(settings.take(i)) is Err,
    ensures
        known_indexes(settings) == known_indexes(settings.take(i)),
    decreases settings.len() - i,
{
    if i < settings.len() {
        assert(settings.take(i + 1).drop_last() =~= settings.take(i));
        indexes_stop(settings, i + 1);
    } else {
        assert(settings.take(i) =~= settings);
    }
}

fn read_types<T: Copy>(types: &Vec<(String, Option<T>)>) -> (r: Result<Vec<T>, String>)
    ensures
        match (r, known_types(types@)) {
            (Ok(v), Ok(view)) => v@ == view,
            (Err(e), Err(name)) => e@ == name,
            _ => false,
        },
{
    let ghost all = types@;
    let mut out: Vec<T> = Vec::new();
    let mut i: usize = 0;
    proof {
        assert(all.take(0).len() == 0);
    }
    while i < types.len()
        invariant
            all == types@,
            i <= all.len(),
            known_types(all.take(i as int)) == Ok::<Seq<T>, Seq<char>>(out@),
        decreases all.len() - i,
    {
        proof {
            assert(all.take(i + 1).drop_last() =~= all.take(i as int));
            assert(all.take(i + 1).last() == all[i as int]);
        }
        match types[i].1 {
            Some(t) => {
                out.push(t);
            },
            None => {
                proof {
                    types_stop(all, i + 1);
                }
                return Err(types[i].0.clone());
            },
        }
        i = i + 1;
    }
    proof {
        assert(all.take(i as int) =~= all);
    }
    Ok(out)
}

/// The indexes that are asked for; none where indexing is switched off.
pub fn attribute_indexes<T: Copy>(enabled: bool, settings: &Vec<IndexSetting<T>>) -> (r: Result<
    Vec<AttributeIndexConfig<T>>,
    String,
>)
    ensures
        !enabled ==> (r matches Ok(v) && v@.len() == 0),
        enabled ==> match (r, known_indexes(settings@)) {
            (Ok(v), Ok(view)) => index_views(v@) == view,
            (Err(e), Err(words)) => e@ == words,
            _ => false,
        },
{
    let ghost all = settings@;
    let mut out: Vec<AttributeIndexConfig<T>> = Vec::new();
    if !enabled {
        return Ok(out);
    }
    let mut i: usize = 0;
    proof {
        assert(index_views(out@) =~= Seq::<IndexView<T>>::empty());
        assert(all.take(0).len() == 0);
    }
    while i < settings.len()
        invariant
            enabled,
            all == settings@,
            i <= all.len(),
            known_indexes(all.take(i as int)) == Ok::<Seq<IndexView<T>>, Seq<char>>(
                index_views(out@),
            ),
        decreases all.len() - i,
    {
        let ghost before = out@;
        proof {
            assert(all.take(i + 1).drop_last() =~= all.take(i as int));
            assert(all.take(i + 1).last() == all[i as int]);
        }
        match read_types(&settings[i].types) {
            Ok(index_types) => {
                let config = AttributeIndexConfig {
                    attribute: settings[i].attribute.clone(),
                    index_types,
                };
                out.push(config);
                proof {
                    assert(index_views(out@) =~= index_views(before).push(config@));
                }
            },
            Err(name) => {
                let mut words = "unsupported index type for ".to_owned();
                words.append(settings[i].attribute.as_str());
                words.append(": ");
                words.append(name.as_str());
                proof {
                    indexes_stop(all, i + 1);
                }
                return Err(words);
            },
        }
        i = i + 1;
    }
    proof {
        assert(all.take(i as int) =~= all);
    }
    Ok(out)
}

// ---------------------------------------------------------------------------
// What the directory holds at first
// ---------------------------------------------------------------------------

/// The common name of the root user: the first of those in their name, unless
/// there is none or it is blank.
pub open spec fn common_name(values: Option<Seq<Seq<char>>>) -> Seq<char> {
    match values {
        Some(values) => if values.len() > 0 && text::trim(values[0]).len() > 0 {
            values[0]
        } else {
            "manager"@
        },
        None => "manager"@,
    }
}

/// The common name of the root user, from the common names in the name of the
/// root user where it could be read.
pub fn root_common_name(values: Option<&Vec<String>>) -> (r: String)
    ensures
        r@ == common_name(
            match values {
                Some(v) => Some(text::texts(v@)),
                None => None,
            },
        ),
{
    if let Some(v) = values {
        if v.len() > 0 {
            proof {
                assert(text::texts(v@)[0] == v@[0]@);
            }
            let trimmed = text::trimmed(v[0].as_str());
            if !trimmed.as_str().is_empty() {
                return v[0].clone();
            }
        }
    }
    "manager".to_owned()
}

/// The entry of the organization.
pub open spec fn organization_entry(base_dn: Seq<char>, organization: Seq<char>) -> ldif::InitialEntryView {
    ldif::InitialEntryView {
        dn: base_dn,
        attributes: seq![
            ("objectClass"@, seq!["top"@, "organization"@]),
            ("o"@, seq![organization]),
            ("description"@, seq![organization]),
        ],
        password: Seq::empty(),
    }
}

/// The entry of the root user.
pub open spec fn root_entry(root_dn: Seq<char>, root_cn: Seq<char>, password: Seq<u8>) -> ldif::InitialEntryView {
    ldif::InitialEntryView {
        dn: root_dn,
        attributes: seq![
            ("objectClass"@, seq!["top"@, "person"@]),
            ("cn"@, seq![root_cn]),
            ("sn"@, seq!["Manager"@]),
        ],
        password,
    }
}

/// The entry of a container.
pub open spec fn unit_entry(base_dn: Seq<char>, unit: Seq<char>) -> ldif::InitialEntryView {
    ldif::InitialEntryView {
        dn: "ou="@ + unit + ","@ + base_dn,
        attributes: seq![
            ("objectClass"@, seq!["top"@, "organizationalUnit"@]),
            ("ou"@, seq![unit]),
            ("description"@, seq![unit + " container"@]),
        ],
        password: Seq::empty(),
    }
}

/// The entries with which a directory starts where no file gives any.
pub open spec fn base_entries(
    base_dn: Seq<char>,
    organization: Seq<char>,
    root_dn: Seq<char>,
    root_cn: Seq<char>,
    password: Seq<u8>,
) -> Seq<ldif::InitialEntryView> {
    seq![
        organization_entry(base_dn, organization),
        root_entry(root_dn, root_cn, password),
        unit_entry(base_dn, "People"@),
        unit_entry(base_dn, "Groups"@),
        unit_entry(base_dn, "Applications"@),
    ]
}

/// What entries say.
pub open spec fn entry_views(v: Seq<InitialLdifEntry>) -> Seq<ldif::InitialEntryView> {
    v.map_values(|e: InitialLdifEntry| e@)
}

proof fn put_new(s: directory::AttributeSeq, k: Seq<char>, v: Seq<Seq<char>>)
    requires
        forall|j: int| 0 <= j < s.len() ==> (#[trigger] s[j]).0 != k,
    ensures
        string_map::put(s, k, v) == s.push((k, v)),
{
    string_map::put_at(s, k, v, s.len() as int);
}

fn one_value(value: &str) -> (r: Vec<String>)
    ensures
        text::texts(r@) == seq![value@],
{
    let mut v: Vec<String> = Vec::new();
    v.push(value.to_owned());
    proof {
        assert(text::texts(v@) =~= seq![value@]);
    }
    v
}

/// Attributes of an entry of that class, with two further ones.
fn class_attributes(class: &str, second: &str, second_value: &str, third: &str, third_value: &str) -> (r:
    Attributes)
    requires
        second@ != "objectClass"@,
        third@ != "objectClass"@,
        second@ != third@,
    ensures
        r@ == seq![
            ("objectClass"@, seq!["top"@, class@]),
            (second@, seq![second_value@]),
            (third@, seq![third_value@]),
        ],
{
    let mut classes: Vec<String> = Vec::new();
    classes.push("top".to_owned());
    classes.push(class.to_owned());
    proof {
        assert(text::texts(classes@) =~= seq!["top"@, class@]);
    }
    let mut attributes = Attributes::new();
    proof {
        put_new(attributes@, "objectClass"@, seq!["top"@, class@]);
    }
    attributes.insert("objectClass".to_owned(), classes);
    proof {
        put_new(attributes@, second@, seq![second_value@]);
    }
    attributes.insert(second.to_owned(), one_value(second_value));
    proof {
        put_new(attributes@, third@, seq![third_value@]);
    }
    attributes.insert(third.to_owned(), one_value(third_value));
    proof {
        assert(attributes@ =~= seq![
            ("objectClass"@, seq!["top"@, class@]),
            (second@, seq![second_value@]),
            (third@, seq![third_value@]),
        ]);
    }
    attributes
}

fn make_unit(base_dn: &str, unit: &str) -> (r: InitialLdifEntry)
    ensures
        r@ == unit_entry(base_dn@, unit@),
{
    let mut dn = "ou=".to_owned();
    dn.append(unit);
    dn.append(",");
    dn.append(base_dn);
    let mut description = unit.to_owned();
    description.append(" container");
    proof {
        reveal_strlit("objectClass");
        reveal_strlit("ou");
        reveal_strlit("description");
        assert("ou"@.len() == 2);
        assert("objectClass"@[0] != "description"@[0]);
    }
    let attributes = class_attributes(
        "organizationalUnit",
        "ou",
        unit,
        "description",
        description.as_str(),
    );
    let entry = InitialLdifEntry { dn, attributes, password: Vec::new() };
    proof {
        assert(entry.password@ =~= Seq::<u8>::empty());
    }
    entry
}

/// The entries with which a directory starts where no file gives any. A
/// directory that is handed the password of the root user later starts with
/// none.
pub fn base_structure(
    base_dn: &str,
    organization: &str,
    root_dn: &str,
    root_cn: &str,
    root_password: Option<&str>,
) -> (r: Vec<InitialLdifEntry>)
    ensures
        entry_views(r@) == base_entries(
            base_dn@,
            organization@,
            root_dn@,
            root_cn@,
            match root_password {
                Some(p) => utf8::encode_utf8(p@),
                None => Seq::empty(),
            },
        ),
{
    let password: Vec<u8> = match root_password {
        Some(p) => text::bytes_of(p),
        None => Vec::new(),
    };
    let ghost secret = password@;
    proof {
        reveal_strlit("objectClass");
        reveal_strlit("o");
        reveal_strlit("description");
        reveal_strlit("cn");
        reveal_strlit("sn");
        assert("o"@.len() == 1);
        assert("objectClass"@[0] != "description"@[0]);
        assert("cn"@.len() == 2 && "sn"@.len() == 2);
        assert("cn"@[0] != "sn"@[0]);
    }
    let first = InitialLdifEntry {
        dn: base_dn.to_owned(),
        attributes: class_attributes("organization", "o", organization, "description", organization),
        password: Vec::new(),
    };
    let second = InitialLdifEntry {
        dn: root_dn.to_owned(),
        attributes: class_attributes("person", "cn", root_cn, "sn", "Manager"),
        password,
    };
    proof {
        assert(first.password@ =~= Seq::<u8>::empty());
        assert(root_password is None ==> secret =~= Seq::<u8>::empty());
    }
    let mut entries: Vec<InitialLdifEntry> = Vec::new();
    entries.push(first);
    entries.push(second);
    entries.push(make_unit(base_dn, "People"));
    entries.push(make_unit(base_dn, "Groups"));
    entries.push(make_unit(base_dn, "Applications"));
    proof {
        assert(entry_views(entries@) =~= base_entries(
            base_dn@,
            organization@,
            root_dn@,
            root_cn@,
            secret,
        ));
    }
    entries
}

/// The directory is to be filled: its base was not found.
pub fn needs_base_structure(base_found: Result<bool, ()>) -> (r: bool)
    ensures
        r == !(base_found matches Ok(found) && found),
{
    match base_found {
        Ok(found) => !found,
        Err(_) => true,
    }
}

/// The words for an entry that no file gave.
pub open spec fn missing_entry(label: Seq<char>, dn: Seq<char>) -> Seq<char> {
    label + " entry "@ + dn + " was not created by initial LDIF import"@
}

/// After the files are read, the entry must be there.
pub fn ensure_initialized_entry_exists(found: bool, label: &str, dn: &str) -> (r: Result<(), String>)
    ensures
        match r {
            Ok(_) => found,
            Err(e) => !found && e@ == missing_entry(label@, dn@),
        },
{
    if found {
        return Ok(());
    }
    let mut words = label.to_owned();
    words.append(" entry ");
    words.append(dn);
    words.append(" was not created by initial LDIF import");
    Err(words)
}

// ---------------------------------------------------------------------------
// Schema output
// ---------------------------------------------------------------------------

/// The elements of a schema in words, by their kinds.
#[derive(Debug)]
pub struct SchemaListing {
    pub attribute_types: Vec<String>,
    pub object_classes: Vec<String>,
    pub ldap_syntaxes: Vec<String>,
    pub matching_rules: Vec<String>,
    pub matching_rule_use: Vec<String>,
    pub dit_content_rules: Vec<String>,
    pub name_forms: Vec<String>,
    pub dit_structure_rules: Vec<String>,
}

/// A line for each value.
pub open spec fn labelled(label: Seq<char>, values: Seq<Seq<char>>) -> Seq<Seq<char>> {
    values.map_values(|v: Seq<char>| label + ": "@ + v)
}

/// The schema as lines.
pub open spec fn dump_lines(s: SchemaListing) -> Seq<Seq<char>> {
    labelled("attributeTypes"@, text::texts(s.attribute_types@)) + labelled(
        "objectClasses"@,
        text::texts(s.object_classes@),
    ) + labelled("ldapSyntaxes"@, text::texts(s.ldap_syntaxes@)) + labelled(
        "matchingRules"@,
        text::texts(s.matching_rules@),
    ) + labelled("matchingRuleUse"@, text::texts(s.matching_rule_use@)) + labelled(
        "dITContentRules"@,
        text::texts(s.dit_content_rules@),
    ) + labelled("nameForms"@, text::texts(s.name_forms@)) + labelled(
        "dITStructureRules"@,
        text::texts(s.dit_structure_rules@),
    )
}

fn push_labelled(out: &mut Vec<String>, label: &str, values: &Vec<String>)
    ensures
        text::texts(final(out)@) == text::texts(old(out)@) + labelled(
            label@,
            text::texts(values@),
        ),
{
    let ghost start = text::texts(out@);
    let ghost all = labelled(label@, text::texts(values@));
    let mut i: usize = 0;
    proof {
        assert(start + all.take(0) =~= start);
    }
    while i < values.len()
        invariant
            all == labelled(label@, text::texts(values@)),
            i <= values@.len(),
            text::texts(out@) == start + all.take(i as int),
        decreases values@.len() - i,
    {
        let mut line = label.to_owned();
        line.append(": ");
        line.append(values[i].as_str());
        proof {
            assert(all[i as int] == line@);
            text::texts_push(out@, line);
            assert(start + all.take(i + 1) =~= (start + all.take(i as int)).push(all[i as int]));
        }
        out.push(line);
        i = i + 1;
    }
    proof {
        assert(all.take(i as int) =~= all);
    }
}

/// The schema as lines.
pub fn dump_schema(s: &SchemaListing) -> (r: Vec<String>)
    ensures
        text::texts(r@) == dump_lines(*s),
{
    let mut out: Vec<String> = Vec::new();
    proof {
        assert(text::texts(out@) =~= Seq::<Seq<char>>::empty());
    }
    push_labelled(&mut out, "attributeTypes", &s.attribute_types);
    proof {
        assert(text::texts(out@) =~= labelled("attributeTypes"@, text::texts(s.attribute_types@)));
    }
    push_labelled(&mut out, "objectClasses", &s.object_classes);
    push_labelled(&mut out, "ldapSyntaxes", &s.ldap_syntaxes);
    push_labelled(&mut out, "matchingRules", &s.matching_rules);
    push_labelled(&mut out, "matchingRuleUse", &s.matching_rule_use);
    push_labelled(&mut out, "dITContentRules", &s.dit_content_rules);
    push_labelled(&mut out, "nameForms", &s.name_forms);
    push_labelled(&mut out, "dITStructureRules", &s.dit_structure_rules);
    out
}

/// The description of a schema element, or the words for one that is not
/// there.
pub fn explained(description: Option<String>, name_or_oid: &str) -> (r: Result<String, String>)
    ensures
        match (r, description) {
            (Ok(d), Some(found)) => d == found,
            (Err(e), None) => e@ == "schema element not found: "@ + name_or_oid@,
            _ => false,
        },
{
    match description {
        Some(d) => Ok(d),
        None => Err(refusal("schema element not found: ", name_or_oid)),
    }
}

// ---------------------------------------------------------------------------
// What the parts report
// ---------------------------------------------------------------------------

/// What is reported of the backend.
pub fn backend_report(lower_name: &str) -> (r: ComponentReport)
    ensures
        r@ == (monitoring_runtime::ReportView {
            status: ComponentStatus::Healthy,
            detail: Some(lower_name@ + " backend initialized"@),
        }),
{
    let mut detail = lower_name.to_owned();
    detail.append(" backend initialized");
    ComponentReport { status: ComponentStatus::Healthy, detail: Some(detail) }
}

/// A side of the replication.
#[derive(Debug, Clone, Copy, PartialEq, Eq, Structural)]
pub enum ReplicationRole {
    Provider,
    Consumer,
}

/// How far a side of the replication has come.
#[derive(Debug, PartialEq, Eq)]
pub enum ReplicationState {
    Configured,
    NotEnabled,
    Running,
    /// It did not start, for that reason.
    Failed(String),
}

/// The name of a side of the replication, as a part of the server.
pub open spec fn role_component(role: ReplicationRole) -> Seq<char> {
    match role {
        ReplicationRole::Provider => "replication_provider"@,
        ReplicationRole::Consumer => "replication_consumer"@,
    }
}

/// The words for a side of the replication.
pub open spec fn role_words(role: ReplicationRole) -> Seq<char> {
    match role {
        ReplicationRole::Provider => "replication provider"@,
        ReplicationRole::Consumer => "replication consumer"@,
    }
}

/// What is reported of a side of the replication.
pub open spec fn replication_told(role: ReplicationRole, state: ReplicationState) -> monitoring_runtime::ReportView {
    match state {
        ReplicationState::Configured => monitoring_runtime::ReportView {
            status: ComponentStatus::Degraded,
            detail: Some(role_words(role) + " is configured but not started yet"@),
        },
        ReplicationState::NotEnabled => monitoring_runtime::ReportView {
            status: ComponentStatus::Disabled,
            detail: Some(role_words(role) + " not enabled"@),
        },
        ReplicationState::Running => monitoring_runtime::ReportView {
            status: ComponentStatus::Healthy,
            detail: Some(role_words(role) + " running"@),
        },
        ReplicationState::Failed(e) => monitoring_runtime::ReportView {
            status: ComponentStatus::Degraded,
            detail: Some(role_words(role) + " failed to start: "@ + e@),
        },
    }
}

impl ReplicationRole {
    /// The name of this side, as a part of the server.
    pub fn component(&self) -> (r: &'static str)
        ensures
            r@ == role_component(*self),
    {
        match self {
            ReplicationRole::Provider => "replication_provider",
            ReplicationRole::Consumer => "replication_consumer",
        }
    }

    fn words(&self) -> (r: &'static str)
        ensures
            r@ == role_words(*self),
    {
        match self {
            ReplicationRole::Provider => "replication provider",
            ReplicationRole::Consumer => "replication consumer",
        }
    }

    /// What is reported of this side.
    pub fn report(&self, state: &ReplicationState) -> (r: ComponentReport)
        ensures
            r@ == replication_told(*self, *state),
    {
        let mut detail = self.words().to_owned();
        let status = match state {
            ReplicationState::Configured => {
                detail.append(" is configured but not started yet");
                ComponentStatus::Degraded
            },
            ReplicationState::NotEnabled => {
                detail.append(" not enabled");
                ComponentStatus::Disabled
            },
            ReplicationState::Running => {
                detail.append(" running");
                ComponentStatus::Healthy
            },
            ReplicationState::Failed(e) => {
                detail.append(" failed to start: ");
                detail.append(e.as_str());
                ComponentStatus::Degraded
            },
        };
        ComponentReport { status, detail: Some(detail) }
    }
}

// ---------------------------------------------------------------------------
// The order of things
// ---------------------------------------------------------------------------

/// What the server does, one after the other.
#[derive(Debug, Clone, Copy, PartialEq, Eq, Structural)]
pub enum Phase {
    InitLogging,
    RunCommand,
    ValidateConfig,
    ValidateForBinary,
    ReadRootPassword,
    LoadSchema,
    ValidateIndexes,
    OpenBackend,
    BuildSecurity,
    BuildReplication,
    StartProvider,
    StartConsumer,
    StartMonitoring,
    BuildTls,
    StartLdap,
    StartLdaps,
    AwaitShutdown,
    Drain,
    AwaitLdap,
    AwaitLdaps,
    AwaitMonitoring,
    StopRecorder,
    AwaitProvider,
    AwaitConsumer,
    Done,
}

/// What decides which phases there are.
#[derive(Debug, Clone, Copy, PartialEq, Eq, Structural)]
pub struct RunPlan {
    /// A command was given in place of serving.
    pub command: bool,
    pub monitoring: bool,
    pub tls: bool,
    /// The provider of the replication runs.
    pub provider: bool,
    /// The consumer of the replication runs.
    pub consumer: bool,
}

/// The place of a phase in the order.
pub open spec fn phase_rank(p: Phase) -> int {
    match p {
        Phase::InitLogging => 0,
        Phase::RunCommand => 1,
        Phase::ValidateConfig => 2,
        Phase::ValidateForBinary => 3,
        Phase::ReadRootPassword => 4,
        Phase::LoadSchema => 5,
        Phase::ValidateIndexes => 6,
        Phase::OpenBackend => 7,
        Phase::BuildSecurity => 8,
        Phase::BuildReplication => 9,
        Phase::StartProvider => 10,
        Phase::StartConsumer => 11,
        Phase::StartMonitoring => 12,
        Phase::BuildTls => 13,
        Phase::StartLdap => 14,
        Phase::StartLdaps => 15,
        Phase::AwaitShutdown => 16,
        Phase::Drain => 17,
        Phase::AwaitLdap => 18,
        Phase::AwaitLdaps => 19,
        Phase::AwaitMonitoring => 20,
        Phase::StopRecorder => 21,
        Phase::AwaitProvider => 22,
        Phase::AwaitConsumer => 23,
        Phase::Done => 24,
    }
}

/// The phase is part of the plan.
pub open spec fn is_planned(plan: RunPlan, p: Phase) -> bool {
    match p {
        Phase::InitLogging => true,
        Phase::Done => true,
        Phase::RunCommand => plan.command,
        Phase::StartMonitoring => !plan.command && plan.monitoring,
        Phase::AwaitMonitoring => !plan.command && plan.monitoring,
        Phase::BuildTls => !plan.command && plan.tls,
        Phase::StartLdaps => !plan.command && plan.tls,
        Phase::AwaitLdaps => !plan.command && plan.tls,
        Phase::AwaitProvider => !plan.command && plan.provider,
        Phase::AwaitConsumer => !plan.command && plan.consumer,
        _ => !plan.command,
    }
}

/// The phase is the next one of the plan: none of the plan comes between.
pub open spec fn is_next(plan: RunPlan, p: Phase, q: Phase) -> bool {
    &&& is_planned(plan, q)
    &&& phase_rank(p) < phase_rank(q)
    &&& forall|r: Phase|
        phase_rank(p) < phase_rank(r) < phase_rank(q) ==> !(#[trigger] is_planned(plan, r))
}

/// A failure in this phase ends the program.
pub open spec fn is_fatal(p: Phase) -> bool {
    phase_rank(p) <= phase_rank(Phase::BuildTls) && p != Phase::StartProvider && p
        != Phase::StartConsumer
}

impl RunPlan {
    /// The phase after this one.
    pub fn next(&self, p: Phase) -> (q: Phase)
        requires
            is_planned(*self, p),
            p != Phase::Done,
        ensures
            is_next(*self, p, q),
    {
        match p {
            Phase::InitLogging => if self.command {
                Phase::RunCommand
            } else {
                Phase::ValidateConfig
            },
            Phase::RunCommand => Phase::Done,
            Phase::ValidateConfig => Phase::ValidateForBinary,
            Phase::ValidateForBinary => Phase::ReadRootPassword,
            Phase::ReadRootPassword => Phase::LoadSchema,
            Phase::LoadSchema => Phase::ValidateIndexes,
            Phase::ValidateIndexes => Phase::OpenBackend,
            Phase::OpenBackend => Phase::BuildSecurity,
            Phase::BuildSecurity => Phase::BuildReplication,
            Phase::BuildReplication => Phase::StartProvider,
            Phase::StartProvider => Phase::StartConsumer,
            Phase::StartConsumer => if self.monitoring {
                Phase::StartMonitoring
            } else if self.tls {
                Phase::BuildTls
            } else {
                Phase::StartLdap
            },
            Phase::StartMonitoring => if self.tls {
                Phase::BuildTls
            } else {
                Phase::StartLdap
            },
            Phase::BuildTls => Phase::StartLdap,
            Phase::StartLdap => if self.tls {
                Phase::StartLdaps
            } else {
                Phase::AwaitShutdown
            },
            Phase::StartLdaps => Phase::AwaitShutdown,
            Phase::AwaitShutdown => Phase::Drain,
            Phase::Drain => Phase::AwaitLdap,
            Phase::AwaitLdap => if self.tls {
                Phase::AwaitLdaps
            } else if self.monitoring {
                Phase::AwaitMonitoring
            } else {
                Phase::StopRecorder
            },
            Phase::AwaitLdaps => if self.monitoring {
                Phase::AwaitMonitoring
            } else {
                Phase::StopRecorder
            },
            Phase::AwaitMonitoring => Phase::StopRecorder,
            Phase::StopRecorder => if self.provider {
                Phase::AwaitProvider
            } else if self.consumer {
                Phase::AwaitConsumer
            } else {
                Phase::Done
            },
            Phase::AwaitProvider => if self.consumer {
                Phase::AwaitConsumer
            } else {
                Phase::Done
            },
            Phase::AwaitConsumer => Phase::Done,
            Phase::Done => Phase::Done,
        }
    }
}

impl Phase {
    /// A failure in this phase ends the program.
    pub fn is_fatal(&self) -> (r: bool)
        ensures
            r == is_fatal(*self),
    {
        match self {
            Phase::InitLogging => true,
            Phase::RunCommand => true,
            Phase::ValidateConfig => true,
            Phase::ValidateForBinary => true,
            Phase::ReadRootPassword => true,
            Phase::LoadSchema => true,
            Phase::ValidateIndexes => true,
            Phase::OpenBackend => true,
            Phase::BuildSecurity => true,
            Phase::BuildReplication => true,
            Phase::StartMonitoring => true,
            Phase::BuildTls => true,
            _ => false,
        }
    }
}

// ---------------------------------------------------------------------------
// Laws
// ---------------------------------------------------------------------------

/// What was started is waited for.
pub proof fn started_parts_are_awaited(plan: RunPlan)
    ensures
        is_planned(plan, Phase::StartLdap) <==> is_planned(plan, Phase::AwaitLdap),
        is_planned(plan, Phase::StartLdaps) <==> is_planned(plan, Phase::AwaitLdaps),
        is_planned(plan, Phase::StartMonitoring) <==> is_planned(plan, Phase::AwaitMonitoring),
{
}

/// The next phase is one only.
pub proof fn the_next_phase_is_unique(plan: RunPlan, p: Phase, a: Phase, b: Phase)
    requires
        is_next(plan, p, a),
        is_next(plan, p, b),
    ensures
        a == b,
{
}

/// The server does not serve where a command was given.
pub proof fn commands_do_not_serve(plan: RunPlan, p: Phase)
    requires
        plan.command,
        is_planned(plan, p),
    ensures
        p == Phase::InitLogging || p == Phase::RunCommand || p == Phase::Done,
{
}

/// The root user of a new directory has the password that was set up, and no
/// other entry has one.
pub proof fn only_the_root_user_has_a_password(
    base_dn: Seq<char>,
    organization: Seq<char>,
    root_dn: Seq<char>,
    root_cn: Seq<char>,
    password: Seq<u8>,
    i: int,
)
    requires
        0 <= i < base_entries(base_dn, organization, root_dn, root_cn, password).len(),
    ensures
        base_entries(base_dn, organization, root_dn, root_cn, password)[i].password == (if i == 1 {
            password
        } else {
            Seq::empty()
        }),
{
}

} // verus!
