use opendr::clock::Duration;
use opendr::directory::{Attributes, DirectoryEntry};
use opendr::ldap_controls::{LdapControl, RequestControls};
use opendr::ldap_filter_eval::{
    prepare_search_filter_with_schema, PreparedLdapFilter, SearchFilter, SearchSubstring,
};
use opendr::metrics::MetricsCollector;
use opendr::response::{
    BackendError, FsmResponseKind, RequestHead, ResponseOp, ResultCode, SearchFsmError,
};
use opendr::schema::{AttributeType, LdapSchema, MatchingRule, RuleKind};
use opendr::search_controls::{
    control_counters, native_search_control_oids_supported, step_controls, ControlFacts,
    ControlStep, PagedResultsControl, ResponseControl, ServerSideSortResultCode, SyncRequest,
};
use opendr::search_entries::{
    derefs_candidates, directory_entry_to_search_entry, exceeds_time_limit, normalize_search_dn,
    prepare_plain_search_referrals, preloaded_search_config, record_direct_search_end,
    record_direct_search_start, referral_urls_for_projected_entry, remaining_after,
    resolve_plain_search_alias_candidates, sort_native_search_entries,
    PlainSearchReferralDisposition, PreloadedSearchBackend, SortKey,
};
use opendr::search_paging::{
    answer_page, answer_uncollected, collect_native_paged_search_entries, collect_until, first_page,
    handle_native_paged_search_continuation, search_deadline_from_limit, ContinuationStep, Deadline,
};
use opendr::search_request::{
    filter_hints, FilterCache, FilterHints, FilterPlace, SearchFacts, SearchRequest, SearchStep,
    VirtualFacts, VirtualStep,
};
use opendr::search_stream::{
    entry_matches, fsm_search_progress_checkpoint, page_step, reference_counter, Arrival,
    DeadlineCheck, MachineEvent, MachineState, MachineStep, PageStep, StreamRules, StreamState,
    StreamStep,
};
use opendr::search_text::{
    escape_filter_value, render_search_filter_string, render_substring_filter,
};

const PAGED: &str = "1.2.840.113556.1.4.319";
const SORTED: &str = "1.2.840.113556.1.4.473";
const MANAGE: &str = "2.16.840.1.113730.3.4.2";

fn head() -> RequestHead {
    RequestHead { message_id: 2, kind: FsmResponseKind::Result(ResponseOp::SearchDone) }
}

fn entry(dn: &str, cn: &str) -> DirectoryEntry {
    let mut attributes = Attributes::new();
    attributes.insert("cn".to_string(), vec![cn.to_string()]);
    attributes.insert("objectclass".to_string(), vec!["person".to_string()]);
    DirectoryEntry::new(dn, attributes)
}

fn schema() -> LdapSchema {
    LdapSchema {
        attribute_types: vec![AttributeType {
            oid: "2.5.4.3".to_string(),
            names: vec!["cn".to_string()],
            syntax: "s".to_string(),
            equality: Some("caseIgnoreMatch".to_string()),
            ordering: None,
            substring: Some("caseIgnoreMatch".to_string()),
        }],
        matching_rules: vec![MatchingRule {
            oid: "2.5.13.2".to_string(),
            names: vec!["caseIgnoreMatch".to_string()],
            syntax: "s".to_string(),
            kind: RuleKind::CaseIgnore,
        }],
    }
}

fn equals(value: &str) -> SearchFilter {
    SearchFilter::EqualityMatch { attribute: "cn".to_string(), value: value.as_bytes().to_vec() }
}

fn prepared(filter: &SearchFilter) -> PreparedLdapFilter {
    prepare_search_filter_with_schema(&schema(), filter).unwrap()
}

#[test]
fn filters_are_written_out() {
    assert_eq!(escape_filter_value(&b"a*(b)\\\0".to_vec()), "a\\2a\\28b\\29\\5c\\00");
    let pieces = vec![
        SearchSubstring::Initial(b"a".to_vec()),
        SearchSubstring::Any(b"b".to_vec()),
        SearchSubstring::Final(b"c".to_vec()),
    ];
    assert_eq!(render_substring_filter(&pieces), "a*b*c");
    let both = SearchFilter::And(vec![equals("x"), SearchFilter::Not(Box::new(equals("y")))]);
    assert_eq!(render_search_filter_string(&both), "(&(cn=x)(!(cn=y)))");
}

#[test]
fn loaded_entries_are_found_by_name() {
    assert_eq!(normalize_search_dn(" CN=A "), "cn=a");
    let shown = directory_entry_to_search_entry(&entry("cn=a", "A"));
    assert_eq!(shown.object_classes, vec!["person".to_string()]);
    let mut backend = PreloadedSearchBackend::new(vec![entry("CN=A", "A"), entry("cn=b", "B")]);
    assert!(backend.entry_exists("cn=a"));
    assert!(backend.get_entry("cn=c").is_none());
    assert_eq!(backend.find_candidates().len(), 2);
    assert!(backend.find_candidates().is_empty());
    assert_eq!(preloaded_search_config(0).max_candidates, 1);
    assert_eq!(preloaded_search_config(7).max_candidates, 7);
}

#[test]
fn time_limits_run_out() {
    assert_eq!(remaining_after(3, 10), Some(7));
    assert_eq!(remaining_after(10, 10), None);
    assert_eq!(remaining_after(99, 0), Some(0));
    assert!(exceeds_time_limit(&Duration::from_secs(2), 1));
    assert!(!exceeds_time_limit(&Duration::from_secs(2), 0));
    assert!(derefs_candidates(1));
    assert!(derefs_candidates(3));
    assert!(!derefs_candidates(2));
}

#[test]
fn aliases_are_followed_or_fail() {
    let found = resolve_plain_search_alias_candidates(
        vec![entry("cn=alias", "A")],
        3,
        vec![Ok(entry("cn=real", "R"))],
    )
    .unwrap();
    assert_eq!(found[0].dn, "cn=real");
    let kept = resolve_plain_search_alias_candidates(vec![entry("cn=alias", "A")], 0, vec![]);
    assert_eq!(kept.unwrap()[0].dn, "cn=alias");
    let error = resolve_plain_search_alias_candidates(
        vec![entry("cn=alias", "A")],
        3,
        vec![Err((ResultCode::LoopDetect, "loop".to_string()))],
    )
    .unwrap_err();
    assert_eq!(error.target_dn, "cn=alias");
    assert_eq!(error.result_code, ResultCode::LoopDetect);
}

#[test]
fn referrals_are_told_apart_from_entries() {
    let url = vec!["ldap://other/".to_string()];
    let found = || {
        vec![
            (entry("cn=a", "A"), None),
            (entry("cn=r", "R"), Some(Ok(url.clone()))),
        ]
    };
    match prepare_plain_search_referrals(found(), false).unwrap() {
        PlainSearchReferralDisposition::SearchEntries { entries, references } => {
            assert_eq!(entries.len(), 1);
            assert_eq!(references, vec![url.clone()]);
        }
        other => panic!("{:?}", other),
    }
    let base = vec![(entry("cn=r", "R"), Some(Ok(url.clone())))];
    assert!(
        matches!(prepare_plain_search_referrals(base, true).unwrap(), PlainSearchReferralDisposition::BaseReferral { dn, .. } if dn == "cn=r")
    );
    let broken = vec![(entry("cn=r", "R"), Some(Err("bad".to_string())))];
    assert_eq!(prepare_plain_search_referrals(broken, false).unwrap_err().target_dn, "cn=r");
    assert_eq!(
        referral_urls_for_projected_entry("cn=r", Some(url.clone()), &vec![None]).unwrap(),
        url
    );
    assert!(referral_urls_for_projected_entry("cn=r", None, &vec![]).is_err());
}

fn key(reverse: bool) -> SortKey {
    SortKey { attribute_type: "CN".to_string(), ordering_rule: None, reverse_order: reverse }
}

#[test]
fn entries_are_sorted() {
    let sorted = sort_native_search_entries(
        vec![entry("cn=2", "b"), entry("cn=1", "A"), entry("cn=3", "c")],
        &vec![key(false)],
    );
    let names: Vec<&str> = sorted.iter().map(|e| e.dn.as_str()).collect();
    assert_eq!(names, vec!["cn=1", "cn=2", "cn=3"]);
    let reversed = sort_native_search_entries(sorted, &vec![key(true)]);
    assert_eq!(reversed[0].dn, "cn=3");
}

#[test]
fn searches_are_counted() {
    let mut metrics = MetricsCollector::new();
    record_direct_search_start(&mut metrics, 5);
    record_direct_search_end(&mut metrics, 3, Duration::from_millis(1), true);
    let text = metrics.export_prometheus_at(0);
    assert!(text.contains("5") && text.contains("3"));
}

fn facts() -> ControlFacts {
    ControlFacts { sort_keys: None, page: None, sync: None }
}

fn controls(oids: &[&str]) -> RequestControls {
    RequestControls::new(oids.iter().map(|o| LdapControl::new(o, false, None)).collect())
}

#[test]
fn controls_are_read_one_after_the_other() {
    let both = controls(&[SORTED, PAGED]);
    assert!(native_search_control_oids_supported(&both));
    assert!(!native_search_control_oids_supported(&controls(&["1.2.3"])));
    let mut known = facts();
    assert!(matches!(
        step_controls(head(), "dc=a", &both, &known, false),
        ControlStep::DecodeSort(None)
    ));
    known.sort_keys = Some(Ok(vec![key(false)]));
    assert!(matches!(
        step_controls(head(), "dc=a", &both, &known, false),
        ControlStep::DecodePage(None)
    ));
    known.page = Some(Ok(PagedResultsControl { size: 10, cookie: vec![] }));
    assert!(matches!(
        step_controls(head(), "dc=a", &both, &known, false),
        ControlStep::ParseSync
    ));
    known.sync = Some(SyncRequest::Absent);
    assert!(matches!(
        step_controls(head(), "dc=a", &both, &known, false),
        ControlStep::Go { sorted: true, paged: true, sync: false, manage_dsa_it: false }
    ));
    assert_eq!(
        control_counters(&both, &known, false),
        vec!["ldap_sort_requests_total", "ldap_paged_search_requests_total"]
    );
    known.sync = Some(SyncRequest::Present);
    assert!(matches!(
        step_controls(head(), "dc=a", &both, &known, false),
        ControlStep::RefuseSync("sync request control cannot be combined with paged results")
    ));
}

#[test]
fn first_pages_need_a_size() {
    let paged = controls(&[PAGED]);
    let known = ControlFacts {
        sort_keys: None,
        page: Some(Ok(PagedResultsControl { size: 0, cookie: vec![] })),
        sync: Some(SyncRequest::Absent),
    };
    match step_controls(head(), "dc=a", &paged, &known, false) {
        ControlStep::Refuse(ending) => {
            assert_eq!(ending.reply.code, ResultCode::ProtocolError);
            assert_eq!(ending.audit.unwrap().action, "paged_search");
        }
        other => panic!("{:?}", other),
    }
    let valued = RequestControls::new(vec![LdapControl::new(MANAGE, false, Some(vec![1]))]);
    assert!(matches!(
        step_controls(head(), "dc=a", &valued, &facts(), false),
        ControlStep::Refuse(_)
    ));
}

#[test]
fn an_order_by_one_attribute_twice_is_refused() {
    let sorted = controls(&[SORTED]);
    let known = ControlFacts {
        sort_keys: Some(Ok(vec![key(false), key(true)])),
        page: None,
        sync: None,
    };
    match step_controls(head(), "dc=a", &sorted, &known, false) {
        ControlStep::Refuse(ending) => assert!(
            matches!(ending.reply.controls[0], ResponseControl::Sort { result, .. } if result != ServerSideSortResultCode::Success)
        ),
        other => panic!("{:?}", other),
    }
}

fn rules(size_limit: u32, filtering: bool) -> StreamRules {
    StreamRules { head: head(), tells_referrals: true, base_only: false, size_limit, filtering }
}

fn arrival(dn: &str, matched: bool) -> Arrival {
    Arrival::Entry { dn: dn.to_string(), referral: None, matched: Ok(matched) }
}

#[test]
fn a_stream_gives_each_entry_once_and_keeps_its_limit() {
    let mut state = StreamState::new(vec![]);
    let rules = rules(1, true);
    assert!(matches!(state.take(&rules, false, arrival("cn=x", false)), StreamStep::Skip));
    assert!(matches!(state.take(&rules, false, arrival("cn=a", true)), StreamStep::Emit));
    assert!(!state.sent(100));
    assert!(matches!(
        state.take(&rules, false, arrival("cn=b", true)),
        StreamStep::End { reply, success: false, .. } if reply.code == ResultCode::SizeLimitExceeded
    ));
    assert_eq!(state.finish(&rules).code, ResultCode::Success);
    let mut late = StreamState::new(vec![]);
    assert!(matches!(
        late.take(&rules, true, arrival("cn=a", true)),
        StreamStep::End { reply, .. } if reply.code == ResultCode::TimeLimitExceeded
    ));
    let mut failed = StreamState::new(vec![]);
    assert!(matches!(
        failed.take(&rules, false, Arrival::Failed(BackendError::NotFound)),
        StreamStep::End { reply, .. } if reply.code == ResultCode::NoSuchObject
    ));
}

#[test]
fn batches_are_sent_when_they_are_full() {
    let mut state = StreamState::new(vec![]);
    assert!(!state.sent(65535));
    assert!(state.sent(1));
    assert!(!state.sent(1));
    assert!(fsm_search_progress_checkpoint(200));
    assert!(!fsm_search_progress_checkpoint(201));
    let mut machine = MachineState::new();
    assert!(matches!(
        machine.take(head(), false, &MachineEvent::Entry(10)),
        MachineStep::Gather { send: false }
    ));
    assert!(matches!(
        machine.take(head(), false, &MachineEvent::Exhausted),
        MachineStep::End { reply, .. } if reply.code == ResultCode::Success
    ));
    assert!(matches!(
        MachineState::new().take(head(), true, &MachineEvent::Failed(SearchFsmError::TimeLimitExceeded)),
        MachineStep::End { reply, .. } if reply.code == ResultCode::TimeLimitExceeded
            && reply.controls.len() == 1
    ));
    assert_eq!(reference_counter(&vec![]), None);
    assert_eq!(page_step(DeadlineCheck::BeforeEntry, false), PageStep::Proceed);
}

#[test]
fn pages_give_all_entries_in_turn() {
    let entries: Vec<DirectoryEntry> =
        (0..5).map(|i| entry(&format!("cn={}", i), "x")).collect();
    let filter = prepared(&equals("X"));
    assert_eq!(entry_matches(&entries[0], &filter), Ok(true));
    let collection =
        collect_native_paged_search_entries(entries, &filter, false, 4, None).unwrap();
    assert!(collection.size_limit_hit);
    assert_eq!(collection.entries.len(), 4);
    let first = first_page(collection, 3);
    assert_eq!(first.entries.len(), 3);
    assert_eq!(first.total_size, 4);
    assert_eq!(first.code, ResultCode::Success);
    let mut cursor = first.cursor.unwrap();
    let last = cursor.next_page(3);
    assert_eq!(last.entries.len(), 1);
    assert!(last.complete);
    assert_eq!(last.code, ResultCode::SizeLimitExceeded);
    let reply =
        answer_page(head(), "dc=a", false, 4, vec![9], ResultCode::Success, "", false);
    assert!(
        matches!(&reply.controls[0], ResponseControl::Paged { size: 4, cookie } if *cookie == vec![9])
    );
}

#[test]
fn collecting_stops_when_time_is_up() {
    let filter = prepared(&equals("x"));
    let entries = vec![entry("cn=1", "x"), entry("cn=2", "x")];
    let some = collect_until(entries, &filter, false, 0, 1, false).unwrap();
    assert!(some.time_limit_hit);
    assert_eq!(some.entries.len(), 1);
    assert!(search_deadline_from_limit(0).is_none());
    assert!(!search_deadline_from_limit(60).unwrap().passed());
}

#[test]
fn pages_go_on_only_for_the_same_search() {
    let control = PagedResultsControl { size: 3, cookie: vec![1] };
    assert!(matches!(
        handle_native_paged_search_continuation(head(), "dc=a", &control, false, false),
        ContinuationStep::Refuse(_)
    ));
    assert!(matches!(
        handle_native_paged_search_continuation(head(), "dc=a", &control, true, false),
        ContinuationStep::Refuse(_)
    ));
    assert!(matches!(
        handle_native_paged_search_continuation(head(), "dc=a", &control, true, true),
        ContinuationStep::NextPage
    ));
    let stop = PagedResultsControl { size: 0, cookie: vec![1] };
    assert!(matches!(
        handle_native_paged_search_continuation(head(), "dc=a", &stop, true, true),
        ContinuationStep::Abandon { .. }
    ));
}

fn request(base: &str, scope: u32) -> SearchRequest {
    SearchRequest {
        head: head(),
        base: base.to_string(),
        scope,
        deref_aliases: 0,
        size_limit: 0,
        time_limit: 0,
        types_only: false,
        attributes: vec![],
        filter: equals("x"),
        controls: RequestControls::new(vec![]),
        subschema_dn: "cn=Subschema".to_string(),
    }
}

#[test]
fn the_root_and_the_schema_are_made_up() {
    let known = ControlFacts { sort_keys: None, page: None, sync: Some(SyncRequest::Absent) };
    let facts = VirtualFacts { controls: known, gathered: None };
    assert!(matches!(request(" ", 0).virtual_step(&facts), VirtualStep::GatherRoot));
    assert!(matches!(request("CN=SUBSCHEMA", 0).virtual_step(&facts), VirtualStep::GatherSchema));
    assert!(matches!(request("dc=a", 0).virtual_step(&facts), VirtualStep::NotVirtual));
    assert!(matches!(request("", 2).virtual_step(&facts), VirtualStep::NotVirtual));
    let gathered = VirtualFacts {
        controls: ControlFacts { sort_keys: None, page: None, sync: Some(SyncRequest::Absent) },
        gathered: Some(Ok(())),
    };
    assert!(matches!(
        request("", 0).virtual_step(&gathered),
        VirtualStep::Answer { reply, .. } if reply.code == ResultCode::Success
    ));
}

fn search_facts() -> SearchFacts {
    SearchFacts {
        controls: ControlFacts { sort_keys: None, page: None, sync: Some(SyncRequest::Absent) },
        prepared: None,
        authorized: None,
        effective_base: None,
        base_entry: None,
        streams: false,
        reads_all: true,
        projected: None,
        streamed: None,
        loaded: None,
        aliases: None,
        referrals: None,
        arranged: false,
        time_left: None,
    }
}

#[test]
fn a_search_goes_through_its_steps() {
    let request = request("dc=a", 2);
    let mut facts = search_facts();
    assert!(matches!(request.step(&facts), SearchStep::PrepareFilter));
    facts.prepared = Some(Ok(FilterHints { exact: true, hinted: true, equality: true }));
    assert!(matches!(request.step(&facts), SearchStep::Authorize(q) if q.dn == "dc=a"));
    facts.authorized = Some(false);
    assert!(matches!(request.step(&facts), SearchStep::Stop));
    facts.authorized = Some(true);
    assert!(matches!(request.step(&facts), SearchStep::ResolveBase(dn) if dn == "dc=a"));
    facts.effective_base = Some(Ok("dc=b".to_string()));
    assert!(matches!(request.step(&facts), SearchStep::Load(dn) if dn == "dc=b"));
    facts.loaded = Some(Ok(true));
    assert!(matches!(request.step(&facts), SearchStep::FindReferrals));
    facts.referrals = Some(Ok(None));
    assert!(matches!(request.step(&facts), SearchStep::AskTime));
    facts.time_left = Some(Some(0));
    assert!(matches!(request.step(&facts), SearchStep::EmitLoaded));
    facts.loaded = Some(Ok(false));
    assert!(matches!(request.step(&facts), SearchStep::RunMachine { covered: false, .. }));
    facts.time_left = Some(None);
    assert!(matches!(
        request.step(&facts),
        SearchStep::Refuse(ending) if ending.reply.code == ResultCode::TimeLimitExceeded
    ));
}

#[test]
fn a_search_streams_where_it_can() {
    let request = request("dc=a", 2);
    let mut facts = search_facts();
    facts.prepared = Some(Ok(FilterHints { exact: true, hinted: true, equality: true }));
    facts.authorized = Some(true);
    facts.effective_base = Some(Ok("dc=a".to_string()));
    facts.streams = true;
    assert!(matches!(request.step(&facts), SearchStep::StreamProjected(_)));
    facts.projected = Some(Ok(true));
    assert!(matches!(request.step(&facts), SearchStep::EmitProjected));
    facts.projected = Some(Ok(false));
    assert!(matches!(request.step(&facts), SearchStep::Stream(_)));
    facts.streamed = Some(Ok(true));
    assert!(matches!(request.step(&facts), SearchStep::EmitCovered));
    facts.streamed = Some(Ok(false));
    assert!(matches!(request.step(&facts), SearchStep::EmitFiltered));
    facts.reads_all = false;
    assert!(matches!(request.step(&facts), SearchStep::Load(_)));
}

#[test]
fn a_base_that_refers_elsewhere_is_a_referral() {
    let request = request("dc=a", 0);
    let mut facts = search_facts();
    facts.prepared = Some(Ok(FilterHints { exact: false, hinted: false, equality: false }));
    facts.authorized = Some(true);
    facts.effective_base = Some(Ok("dc=a".to_string()));
    facts.loaded = Some(Ok(false));
    facts.referrals =
        Some(Ok(Some(("dc=a".to_string(), vec!["ldap://b/".to_string()]))));
    match request.step(&facts) {
        SearchStep::Refuse(ending) => {
            assert_eq!(ending.reply.code, ResultCode::Referral);
            assert_eq!(ending.reply.referrals, vec!["ldap://b/".to_string()]);
            assert_eq!(ending.counters, vec!["ldap_referral_results_total"]);
            assert_eq!(
                ending.audit.unwrap().extra,
                Some(("referral_count", "1".to_string()))
            );
        }
        other => panic!("{:?}", other),
    }
    facts.effective_base = Some(Err((ResultCode::LoopDetect, "loop".to_string())));
    assert!(matches!(
        request.step(&facts),
        SearchStep::Refuse(ending) if ending.reply.code == ResultCode::LoopDetect
    ));
}

#[test]
fn prepared_filters_are_kept_unless_the_schema_may_change() {
    let mut cache = FilterCache::new();
    let schema = schema();
    let first = cache.prepare_or_cache_search_filter(&schema, "(cn=x)", &equals("x"), false);
    assert_eq!(first.unwrap(), FilterPlace::Kept(0));
    let again = cache.prepare_or_cache_search_filter(&schema, "(cn=x)", &equals("x"), false);
    assert_eq!(again.unwrap(), FilterPlace::Kept(0));
    let place = cache
        .prepare_or_cache_search_filter(&schema, "(cn=x)", &equals("x"), true)
        .unwrap();
    assert_eq!(place, FilterPlace::Unkept);
    assert_eq!(cache.texts.len(), 1);
    let hints = filter_hints(cache.get(place).unwrap());
    assert_eq!(hints, FilterHints { exact: true, hinted: true, equality: true });
    let unknown = SearchFilter::EqualityMatch { attribute: "zz".to_string(), value: vec![] };
    assert!(cache.prepare_or_cache_search_filter(&schema, "(zz=)", &unknown, false).is_err());
}

#[test]
fn entries_that_cannot_be_tested_make_the_search_unavailable() {
    let told = answer_uncollected(head(), "dc=a", "no such rule");
    assert_eq!(told.code, ResultCode::Unavailable);
    assert_eq!(told.matched_dn, "dc=a");
    assert_eq!(told.diagnostic, "no such rule");
    assert!(told.controls.is_empty());
    assert!(told.referrals.is_empty());
}

#[test]
fn a_search_in_pages_gives_every_match_once() {
    let filter = prepared(&equals("x"));
    let entries = vec![
        entry("cn=1", "x"),
        entry("cn=2", "y"),
        entry("CN=1", "x"),
        entry("cn=3", "x"),
        entry("cn=4", "x"),
    ];
    let collection = collect_native_paged_search_entries(entries, &filter, false, 0, None).unwrap();
    assert!(!collection.size_limit_hit);
    let first = first_page(collection, 2);
    let names = |page: &Vec<DirectoryEntry>| -> Vec<String> {
        page.iter().map(|entry| entry.dn.clone()).collect()
    };
    assert_eq!(names(&first.entries), vec!["cn=1", "cn=3"]);
    assert_eq!(first.total_size, 3);
    let mut cursor = first.cursor.unwrap();
    assert_eq!(cursor.total_size, 3);
    let last = cursor.next_page(2);
    assert_eq!(names(&last.entries), vec!["cn=4"]);
    assert!(last.complete);
    assert_eq!(last.code, ResultCode::Success);
}

#[test]
fn a_deadline_passes_with_its_limit() {
    let deadline = search_deadline_from_limit(2).unwrap();
    assert!(!deadline.passed_after(&Duration::from_millis(1999)));
    assert!(deadline.passed_after(&Duration::from_secs(2)));
    let at_once = Deadline { limit: Duration::from_secs(0), ..deadline };
    assert!(at_once.passed());
}

#[test]
fn an_entry_of_a_stream_is_held_against_the_filter() {
    let filter = prepared(&equals("x"));
    let rules = rules(0, true);
    let mut state = StreamState::new(vec![]);
    let other = entry("cn=1", "y");
    let wanted = entry("cn=2", "x");
    assert!(matches!(state.take_entry(&rules, false, &other, None, &filter), StreamStep::Skip));
    assert!(matches!(state.take_entry(&rules, false, &wanted, None, &filter), StreamStep::Emit));
    assert!(matches!(state.take_entry(&rules, false, &wanted, None, &filter), StreamStep::Skip));
    let urls = vec!["ldap://host/".to_string()];
    assert!(matches!(
        state.take_entry(&rules, false, &wanted, Some(Ok(urls.clone())), &filter),
        StreamStep::Skip
    ));
    assert_eq!(state.references, vec![urls]);
    assert!(matches!(
        state.take_entry(&rules, true, &wanted, None, &filter),
        StreamStep::End { reply, .. } if reply.code == ResultCode::TimeLimitExceeded
    ));
}
