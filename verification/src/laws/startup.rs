//! Laws of starting the server: how settings are read, what a new directory
//! holds, and in which order things are done.

use vstd::prelude::*;

use crate::monitoring_runtime::ComponentStatus;
use crate::startup::{
    access_policy, audit_format, audit_level, backend_kind, base_entries, common_name, dump_lines,
    is_fatal, is_planned, known_indexes, known_types, phase_rank, replication_told, runtime_kind,
    tls_version, AccessPolicy, AuditFormat, AuditLevel, BackendKind, IndexSetting, Phase,
    ReplicationRole, ReplicationState, RunPlan, RuntimeKind, SchemaListing, TlsVersion,
};
use crate::string_map;
use crate::text;

verus! {

/// A setting is read by its name, which is that of one value only; any other
/// name is none.
pub proof fn settings_are_read_by_name(s: Seq<char>)
    ensures
        audit_level(s) == Some(AuditLevel::Debug) <==> s == "debug"@,
        audit_level(s) == Some(AuditLevel::Info) <==> s == "info"@,
        audit_level(s) == Some(AuditLevel::Warning) <==> s == "warning"@,
        audit_level(s) == Some(AuditLevel::Error) <==> s == "error"@,
        audit_level(s) == Some(AuditLevel::Critical) <==> s == "critical"@,
        audit_format(s) == Some(AuditFormat::Json) <==> s == "json"@,
        audit_format(s) == Some(AuditFormat::Syslog) <==> s == "syslog"@,
        audit_format(s) == Some(AuditFormat::Text) <==> s == "text"@,
        access_policy(s) == Some(AccessPolicy::Permissive) <==> s == "allow"@,
        access_policy(s) == Some(AccessPolicy::Restrictive) <==> s == "deny"@,
        tls_version(s) == Some(TlsVersion::Tls12) <==> s == "1.2"@,
        tls_version(s) == Some(TlsVersion::Tls13) <==> s == "1.3"@,
        backend_kind(s) == Some(BackendKind::Lmdb) <==> s == "lmdb"@,
        backend_kind(s) == Some(BackendKind::Memory) <==> s == "memory"@,
        runtime_kind(s) == Some(RuntimeKind::Legacy) <==> s == "legacy"@,
        runtime_kind(s) == Some(RuntimeKind::Fsm) <==> s == "fsm"@,
{
    reveal_strlit("debug");
    reveal_strlit("info");
    reveal_strlit("warning");
    reveal_strlit("error");
    reveal_strlit("critical");
    reveal_strlit("json");
    reveal_strlit("syslog");
    reveal_strlit("text");
    reveal_strlit("allow");
    reveal_strlit("deny");
    reveal_strlit("1.2");
    reveal_strlit("1.3");
    reveal_strlit("lmdb");
    reveal_strlit("memory");
    reveal_strlit("legacy");
    reveal_strlit("fsm");
    assert("debug"@[0] != "error"@[0]);
    assert("json"@[0] != "text"@[0]);
    assert("1.2"@[2] != "1.3"@[2]);
    assert("debug"@.len() == 5 && "error"@.len() == 5 && "info"@.len() == 4);
    assert("warning"@.len() == 7 && "critical"@.len() == 8);
    assert("allow"@.len() == 5 && "deny"@.len() == 4);
    assert("lmdb"@.len() == 4 && "memory"@.len() == 6);
    assert("legacy"@.len() == 6 && "fsm"@.len() == 3);
    assert("json"@.len() == 4 && "syslog"@.len() == 6 && "text"@.len() == 4);
}

/// The kinds of an index are taken in their order where all of them are known;
/// else the first that is not is told.
pub proof fn kinds_of_an_index_are_known<T>(types: Seq<(String, Option<T>)>)
    ensures
        known_types(types) is Ok <==> forall|i: int|
            0 <= i < types.len() ==> (#[trigger] types[i]).1 is Some,
        known_types(types) matches Ok(kinds) ==> kinds.len() == types.len() && forall|i: int|
            0 <= i < types.len() ==> (#[trigger] types[i]).1 == Some(kinds[i]),
        known_types(types) matches Err(name) ==> exists|i: int|
            0 <= i < types.len() && (#[trigger] types[i]).1 is None && types[i].0@ == name
                && forall|j: int| 0 <= j < i ==> (#[trigger] types[j]).1 is Some,
    decreases types.len(),
{
    if types.len() > 0 {
        let front = types.drop_last();
        let n = types.len() - 1;
        kinds_of_an_index_are_known(front);
        assert forall|i: int| 0 <= i < n implies #[trigger] front[i] == types[i] by {}
        match known_types(front) {
            Err(name) => {
                let i = choose|i: int|
                    0 <= i < front.len() && (#[trigger] front[i]).1 is None && front[i].0@ == name
                        && forall|j: int| 0 <= j < i ==> (#[trigger] front[j]).1 is Some;
                assert(types[i].1 is None);
                assert forall|j: int| 0 <= j < i implies (#[trigger] types[j]).1 is Some by {
                    assert(front[j].1 is Some);
                }
            },
            Ok(before) => {
                assert forall|j: int| 0 <= j < n implies (#[trigger] types[j]).1 == Some(
                    before[j],
                ) by {
                    assert(front[j].1 == Some(before[j]));
                }
                if types.last().1 is None {
                    assert(types[n].1 is None);
                }
            },
        }
    }
}

/// The indexes that are asked for are those of the settings, in their order,
/// each of its attribute and with its kinds; one that cannot be had refuses
/// them all.
pub proof fn indexes_are_those_asked_for<T>(settings: Seq<IndexSetting<T>>)
    ensures
        known_indexes(settings) is Ok <==> forall|i: int|
            0 <= i < settings.len() ==> known_types((#[trigger] settings[i]).types@) is Ok,
        known_indexes(settings) matches Ok(indexes) ==> indexes.len() == settings.len() && forall|
            i: int,
        |
            0 <= i < settings.len() ==> indexes[i].attribute == (
            #[trigger] settings[i]).attribute@ && known_types(settings[i].types@) == Ok::<
                Seq<T>,
                Seq<char>,
            >(indexes[i].index_types),
    decreases settings.len(),
{
    if settings.len() > 0 {
        let front = settings.drop_last();
        let n = settings.len() - 1;
        indexes_are_those_asked_for(front);
        assert forall|i: int| 0 <= i < n implies #[trigger] front[i] == settings[i] by {}
        if known_indexes(settings) is Ok {
            let before = known_indexes(front)->Ok_0;
            assert forall|i: int| 0 <= i < settings.len() implies known_types(
                (#[trigger] settings[i]).types@,
            ) is Ok by {
                if i < n {
                    assert(known_types(front[i].types@) is Ok);
                }
            }
            let indexes = known_indexes(settings)->Ok_0;
            assert forall|i: int| 0 <= i < settings.len() implies indexes[i].attribute == (
            #[trigger] settings[i]).attribute@ && known_types(settings[i].types@) == Ok::<
                Seq<T>,
                Seq<char>,
            >(indexes[i].index_types) by {
                if i < n {
                    assert(indexes[i] == before[i]);
                    assert(front[i] == settings[i]);
                }
            }
        } else if forall|i: int|
            0 <= i < settings.len() ==> known_types((#[trigger] settings[i]).types@) is Ok {
            assert forall|i: int| 0 <= i < front.len() implies known_types(
                (#[trigger] front[i]).types@,
            ) is Ok by {
                assert(known_types(settings[i].types@) is Ok);
            }
            assert(known_types(settings[n].types@) is Ok);
            assert(false);
        }
    }
}

/// A new directory holds its organization at the base, the root user under the
/// name that was set, and a container below the base for people, groups and
/// applications each.
pub proof fn a_new_directory_has_its_entries(
    base_dn: Seq<char>,
    organization: Seq<char>,
    root_dn: Seq<char>,
    root_cn: Seq<char>,
    password: Seq<u8>,
)
    ensures
        ({
            let entries = base_entries(base_dn, organization, root_dn, root_cn, password);
            &&& entries.len() == 5
            &&& entries[0].dn == base_dn
            &&& string_map::lookup(entries[0].attributes, "o"@) == Some(seq![organization])
            &&& entries[1].dn == root_dn
            &&& string_map::lookup(entries[1].attributes, "cn"@) == Some(seq![root_cn])
            &&& entries[2].dn == "ou="@ + "People"@ + ","@ + base_dn
            &&& entries[3].dn == "ou="@ + "Groups"@ + ","@ + base_dn
            &&& entries[4].dn == "ou="@ + "Applications"@ + ","@ + base_dn
            &&& string_map::lookup(entries[2].attributes, "ou"@) == Some(seq!["People"@])
            &&& string_map::lookup(entries[3].attributes, "ou"@) == Some(seq!["Groups"@])
            &&& string_map::lookup(entries[4].attributes, "ou"@) == Some(seq!["Applications"@])
            &&& string_map::lookup(entries[0].attributes, "objectClass"@) == Some(
                seq!["top"@, "organization"@],
            )
            &&& string_map::lookup(entries[1].attributes, "objectClass"@) == Some(
                seq!["top"@, "person"@],
            )
            &&& string_map::lookup(entries[2].attributes, "objectClass"@) == Some(
                seq!["top"@, "organizationalUnit"@],
            )
        }),
{
    reveal_with_fuel(string_map::lookup, 3);
    reveal_strlit("objectClass");
    reveal_strlit("o");
    reveal_strlit("cn");
    reveal_strlit("ou");
    assert("objectClass"@.len() == 11);
    assert("o"@.len() == 1);
    assert("cn"@.len() == 2);
    assert("ou"@.len() == 2);
}

/// The root user is called by the first common name in its name, unless that
/// is blank or there is none.
pub proof fn the_root_user_has_a_common_name(values: Seq<Seq<char>>)
    ensures
        values.len() > 0 && text::trim(values[0]).len() > 0 ==> common_name(Some(values))
            == values[0],
        values.len() == 0 || text::trim(values[0]).len() == 0 ==> common_name(Some(values))
            == "manager"@,
        common_name(None) == "manager"@,
{
}

/// The side of the replication that runs is well, one that is not enabled does
/// not count, and one that did not start yet, or could not, is in trouble.
pub proof fn replication_is_reported(role: ReplicationRole, state: ReplicationState)
    ensures
        replication_told(role, state).status == ComponentStatus::Healthy <==> state is Running,
        replication_told(role, state).status == ComponentStatus::Disabled <==> state is NotEnabled,
        replication_told(role, state).status == ComponentStatus::Degraded <==> state is Configured
            || state is Failed,
        replication_told(role, state).detail is Some,
{
}

/// A server that serves does so after everything is set up, and shuts down
/// before it waits for its parts; a command is run in place of all that.
pub proof fn things_are_done_in_order(plan: RunPlan, p: Phase)
    ensures
        is_planned(plan, Phase::InitLogging),
        is_planned(plan, Phase::Done),
        is_planned(plan, Phase::RunCommand) <==> plan.command,
        !plan.command ==> is_planned(plan, Phase::ValidateConfig) && is_planned(
            plan,
            Phase::LoadSchema,
        ) && is_planned(plan, Phase::OpenBackend) && is_planned(plan, Phase::BuildSecurity)
            && is_planned(plan, Phase::StartLdap) && is_planned(plan, Phase::AwaitShutdown)
            && is_planned(plan, Phase::Drain) && is_planned(plan, Phase::AwaitLdap),
        !plan.command ==> (is_planned(plan, Phase::StartLdaps) <==> plan.tls) && (is_planned(
            plan,
            Phase::BuildTls,
        ) <==> plan.tls),
        !plan.command ==> (is_planned(plan, Phase::StartMonitoring) <==> plan.monitoring),
        !plan.command ==> (is_planned(plan, Phase::AwaitProvider) <==> plan.provider) && (
        is_planned(plan, Phase::AwaitConsumer) <==> plan.consumer),
        phase_rank(Phase::InitLogging) <= phase_rank(p) <= phase_rank(Phase::Done),
        phase_rank(Phase::ValidateConfig) < phase_rank(Phase::LoadSchema) < phase_rank(
            Phase::OpenBackend,
        ) < phase_rank(Phase::BuildSecurity) < phase_rank(Phase::BuildTls) < phase_rank(
            Phase::StartLdap,
        ) < phase_rank(Phase::AwaitShutdown) < phase_rank(Phase::Drain) < phase_rank(
            Phase::AwaitLdap,
        ) < phase_rank(Phase::Done),
        phase_rank(Phase::BuildTls) < phase_rank(Phase::StartLdaps) < phase_rank(
            Phase::AwaitShutdown,
        ),
        phase_rank(Phase::StartMonitoring) < phase_rank(Phase::AwaitShutdown) < phase_rank(
            Phase::AwaitMonitoring,
        ),
        is_fatal(Phase::OpenBackend) && is_fatal(Phase::ValidateConfig) && is_fatal(
            Phase::LoadSchema,
        ) && is_fatal(Phase::BuildTls) && is_fatal(Phase::BuildSecurity),
        !is_fatal(Phase::StartProvider) && !is_fatal(Phase::StartConsumer) && !is_fatal(
            Phase::AwaitLdap,
        ),
{
}

/// No two things are done at the same place in the order.
pub proof fn phases_have_their_places(a: Phase, b: Phase)
    ensures
        phase_rank(a) == phase_rank(b) <==> a == b,
{
}

/// A schema is shown with a line for each of its definitions, and no other.
pub proof fn all_definitions_are_shown(s: SchemaListing, i: int)
    ensures
        dump_lines(s).len() == s.attribute_types@.len() + s.object_classes@.len()
            + s.ldap_syntaxes@.len() + s.matching_rules@.len() + s.matching_rule_use@.len()
            + s.dit_content_rules@.len() + s.name_forms@.len() + s.dit_structure_rules@.len(),
        0 <= i < s.attribute_types@.len() ==> dump_lines(s)[i] == "attributeTypes"@ + ": "@
            + s.attribute_types@[i]@,
        0 <= i < s.object_classes@.len() ==> dump_lines(s)[s.attribute_types@.len() + i]
            == "objectClasses"@ + ": "@ + s.object_classes@[i]@,
        0 <= i < s.ldap_syntaxes@.len() ==> dump_lines(s)[s.attribute_types@.len()
            + s.object_classes@.len() + i] == "ldapSyntaxes"@ + ": "@ + s.ldap_syntaxes@[i]@,
        0 <= i < s.matching_rules@.len() ==> dump_lines(s)[s.attribute_types@.len()
            + s.object_classes@.len() + s.ldap_syntaxes@.len() + i] == "matchingRules"@ + ": "@
            + s.matching_rules@[i]@,
{
}

} // verus!
