use remitwise::insurance::{
    clamp_limit, is_allowed_external_ref_byte, external_ref_refusal, validate_external_ref_bytes, Address, CoverageType,
    ExternalRefBinding, ExternalRefUpdatedEvent, Insurance, InsuranceError, DEFAULT_PAGE_LIMIT, MAX_PAGE_LIMIT, PREMIUM_INTERVAL_SECS,
};

fn setup() -> (Insurance, Address, Address) {
    (
        Insurance::new(),
        Address::new("GOWNERAAAAAAAAAAAAAAAAAAAAAAAAAAAAAAAAAAAAAAAAAAAAAAAAAA".to_string()),
        Address::new("GOWNERBBBBBBBBBBBBBBBBBBBBBBBBBBBBBBBBBBBBBBBBBBBBBBBBBB".to_string()),
    )
}

fn policy_name() -> String {
    "Policy".to_string()
}

fn ext(v: &str) -> Option<String> {
    Some(v.to_string())
}

/// Creates a policy as the contract entry point does: a refused request aborts with the
/// refusal's message.
fn create(
    client: &mut Insurance,
    owner: Address,
    name: String,
    coverage_type: CoverageType,
    monthly_premium: i128,
    coverage_amount: i128,
    external_ref: Option<String>,
    now: u64,
) -> u32 {
    if let Some(e) = client.create_policy_refusal(&owner, &external_ref) {
        panic!("{}", e.message());
    }
    client.create_policy(owner, name, coverage_type, monthly_premium, coverage_amount, external_ref, now)
}

/// Sets a policy's reference as the contract entry point does.
fn set_ref(
    client: &mut Insurance,
    caller: &Address,
    policy_id: u32,
    external_ref: Option<String>,
) -> (bool, Option<ExternalRefUpdatedEvent>) {
    if let Some(e) = client.set_external_ref_refusal(caller, policy_id, &external_ref) {
        panic!("{}", e.message());
    }
    client.set_external_ref(caller, policy_id, external_ref)
}

#[test]
#[should_panic(expected = "external_ref already in use for owner")]
fn duplicate_external_ref_same_owner_panics() {
    let (mut client, owner, _) = setup();
    let name = policy_name();
    create(&mut client, owner.clone(), name.clone(), CoverageType::Health, 100, 10_000, ext("INV-001"), 0);
    create(&mut client, owner.clone(), name, CoverageType::Life, 200, 20_000, ext("INV-001"), 0);
}

#[test]
fn duplicate_external_ref_different_owners_allowed() {
    let (mut client, owner_a, owner_b) = setup();
    let name = policy_name();

    let id_a = create(&mut client, owner_a.clone(), name.clone(), CoverageType::Health, 100, 10_000, ext("INV-001"), 0);
    let id_b = create(&mut client, owner_b.clone(), name, CoverageType::Health, 100, 10_000, ext("INV-001"), 0);

    assert_eq!(client.get_policy_id_by_external_ref(&owner_a, &"INV-001".to_string()), Some(id_a));
    assert_eq!(client.get_policy_id_by_external_ref(&owner_b, &"INV-001".to_string()), Some(id_b));
}

#[test]
#[should_panic(expected = "invalid external_ref charset")]
fn invalid_external_ref_charset_panics() {
    let (mut client, owner, _) = setup();
    create(&mut client, owner, policy_name(), CoverageType::Health, 100, 10_000, ext("bad ref"), 0);
}

#[test]
fn refused_creation_is_answered_before_the_call() {
    let (mut client, owner, other) = setup();
    create(&mut client, owner.clone(), policy_name(), CoverageType::Health, 100, 10_000, ext("INV-001"), 0);
    assert_eq!(client.create_policy_refusal(&owner, &ext("INV-001")), Some(InsuranceError::ExternalRefInUse));
    assert_eq!(client.create_policy_refusal(&other, &ext("INV-001")), None);
    assert_eq!(client.create_policy_refusal(&owner, &ext("bad ref")), Some(InsuranceError::InvalidExternalRefCharset));
    assert_eq!(client.create_policy_refusal(&owner, &None), None);
    assert_eq!(InsuranceError::ExternalRefInUse.message(), "external_ref already in use for owner");
    assert_eq!(InsuranceError::InvalidExternalRefCharset.message(), "invalid external_ref charset");
    assert!(client.get_policy(2).is_none());
}

#[test]
fn clearing_external_ref_allows_reuse() {
    let (mut client, owner, _) = setup();
    let name = policy_name();

    let id1 = create(&mut client, owner.clone(), name.clone(), CoverageType::Health, 100, 10_000, ext("INV-002"), 0);

    assert!(set_ref(&mut client, &owner, id1, None).0);
    assert_eq!(client.get_policy_id_by_external_ref(&owner, &"INV-002".to_string()), None);

    let id2 = create(&mut client, owner.clone(), name, CoverageType::Life, 100, 10_000, ext("INV-002"), 0);
    assert_eq!(client.get_policy_id_by_external_ref(&owner, &"INV-002".to_string()), Some(id2));
}

#[test]
fn deactivate_clears_external_ref_mapping_allows_reuse() {
    let (mut client, owner, _) = setup();
    let name = policy_name();

    let id1 = create(&mut client, owner.clone(), name.clone(), CoverageType::Health, 100, 10_000, ext("INV-003"), 0);
    assert!(client.deactivate_policy(&owner, id1));

    let id2 = create(&mut client, owner.clone(), name, CoverageType::Property, 100, 10_000, ext("INV-003"), 0);
    assert_eq!(client.get_policy_id_by_external_ref(&owner, &"INV-003".to_string()), Some(id2));
}

#[test]
fn restore_with_conflicting_external_ref_fails_closed() {
    let (mut client, owner, _) = setup();
    let name = policy_name();

    let id1 = create(&mut client, owner.clone(), name.clone(), CoverageType::Health, 100, 10_000, ext("INV-004"), 0);
    assert!(client.archive_policy(&owner, id1));

    let id2 = create(&mut client, owner.clone(), name, CoverageType::Auto, 120, 12_000, ext("INV-004"), 0);

    assert!(!client.restore_policy(&owner, id1));
    assert_eq!(client.get_policy_id_by_external_ref(&owner, &"INV-004".to_string()), Some(id2));
    assert!(client.get_archived_policy(id1).is_some());
}

#[test]
fn ids_are_sequential_and_policy_reads_back() {
    let (mut client, owner, _) = setup();
    let id1 = create(&mut client, owner.clone(), "Home".to_string(), CoverageType::Property, 75, 500_000, None, 1_000);
    let id2 = create(&mut client, owner.clone(), "Car".to_string(), CoverageType::Auto, 40, 20_000, None, 1_000);
    assert_eq!((id1, id2), (1, 2));
    let p = client.get_policy(id1).unwrap();
    assert_eq!(p.id, 1);
    assert_eq!(p.owner, owner);
    assert_eq!(p.name, "Home");
    assert_eq!(p.monthly_premium, 75);
    assert_eq!(p.coverage_amount, 500_000);
    assert!(p.active);
    assert_eq!(p.next_payment_date, 1_000 + PREMIUM_INTERVAL_SECS);
    assert_eq!(PREMIUM_INTERVAL_SECS, 30 * 86_400);
    assert!(client.get_policy(3).is_none());
}

#[test]
fn external_ref_length_limits() {
    let (mut client, owner, _) = setup();
    assert_eq!(client.create_policy_refusal(&owner, &ext("")), Some(InsuranceError::InvalidExternalRefLength));
    let long = "a".repeat(129);
    assert_eq!(client.create_policy_refusal(&owner, &Some(long)), Some(InsuranceError::InvalidExternalRefLength));
    assert_eq!(InsuranceError::InvalidExternalRefLength.message(), "invalid external_ref length");
    let max = "A-_.:9".repeat(21) + "xy";
    assert_eq!(max.len(), 128);
    assert_eq!(create(&mut client, owner.clone(), policy_name(), CoverageType::Health, 1, 1, Some(max.clone()), 0), 1);
    assert_eq!(client.get_policy_id_by_external_ref(&owner, &max), Some(1));
    // a multi-byte character: refused on its bytes
    assert_eq!(external_ref_refusal(&"café".to_string()), Some(InsuranceError::InvalidExternalRefCharset));
    assert_eq!(external_ref_refusal(&"é".repeat(65)), Some(InsuranceError::InvalidExternalRefLength));
    assert_eq!(external_ref_refusal(&"INV-1".to_string()), None);
    assert_eq!(client.get_policy_id_by_external_ref(&owner, &"bad ref".to_string()), None);
}

#[test]
fn allowed_external_ref_bytes() {
    for b in 0u8..=255 {
        let expected = b.is_ascii_alphanumeric() || matches!(b, b'-' | b'_' | b'.' | b':');
        assert_eq!(is_allowed_external_ref_byte(b), expected, "byte {}", b);
    }
}

#[test]
fn clamp_limit_values() {
    assert_eq!(clamp_limit(0), DEFAULT_PAGE_LIMIT);
    assert_eq!(clamp_limit(0), 20);
    assert_eq!(clamp_limit(1), 1);
    assert_eq!(clamp_limit(50), 50);
    assert_eq!(clamp_limit(51), MAX_PAGE_LIMIT);
    assert_eq!(clamp_limit(u32::MAX), 50);
}

#[test]
fn only_owner_may_change_policy() {
    let (mut client, owner, other) = setup();
    let id = create(&mut client, owner.clone(), policy_name(), CoverageType::Life, 10, 1_000, ext("REF-1"), 0);
    assert!(!client.deactivate_policy(&other, id));
    assert!(!client.pay_premium(&other, id, 5));
    assert!(!client.archive_policy(&other, id));
    assert_eq!(set_ref(&mut client, &other, id, ext("REF-2")), (false, None));
    assert!(client.get_policy(id).unwrap().active);
    assert_eq!(client.get_policy_id_by_external_ref(&owner, &"REF-1".to_string()), Some(id));
    assert!(!client.deactivate_policy(&owner, 99));
    assert!(client.deactivate_policy(&owner, id));
    assert!(!client.deactivate_policy(&owner, id));
}

#[test]
fn set_external_ref_emits_event_only_on_change() {
    let (mut client, owner, _) = setup();
    let id = create(&mut client, owner.clone(), policy_name(), CoverageType::Life, 10, 1_000, ext("REF-1"), 0);
    assert_eq!(set_ref(&mut client, &owner, id, ext("REF-1")), (true, None));
    let (ok, event) = set_ref(&mut client, &owner, id, ext("REF-9"));
    assert!(ok);
    let event = event.unwrap();
    assert_eq!(event.policy_id, id);
    assert_eq!(event.owner, owner);
    assert_eq!(event.external_ref, ext("REF-9"));
    assert_eq!(client.get_policy_id_by_external_ref(&owner, &"REF-1".to_string()), None);
    assert_eq!(client.get_policy_id_by_external_ref(&owner, &"REF-9".to_string()), Some(id));
    assert_eq!(client.get_policy(id).unwrap().external_ref, ext("REF-9"));
    // invalid reference refused even for a missing policy
    assert_eq!(
        client.set_external_ref_refusal(&owner, 77, &ext("no spaces")),
        Some(InsuranceError::InvalidExternalRefCharset)
    );
    assert_eq!(set_ref(&mut client, &owner, 77, ext("OK")), (false, None));
    // taken by another policy of the same owner
    let id2 = create(&mut client, owner.clone(), policy_name(), CoverageType::Life, 10, 1_000, ext("REF-2"), 0);
    assert_eq!(client.set_external_ref_refusal(&owner, id2, &ext("REF-9")), Some(InsuranceError::ExternalRefInUse));
    assert_eq!(client.set_external_ref_refusal(&owner, id2, &ext("REF-2")), None);
    assert_eq!(client.get_policy(id2).unwrap().external_ref, ext("REF-2"));
}

#[test]
fn archive_then_restore_gives_policy_back() {
    let (mut client, owner, other) = setup();
    let id = create(&mut client, owner.clone(), policy_name(), CoverageType::Health, 100, 10_000, ext("ARC-1"), 7);
    let before = client.get_policy(id).unwrap();
    assert!(client.archive_policy(&owner, id));
    assert!(client.get_policy(id).is_none());
    let archived = client.get_archived_policy(id).unwrap();
    assert_eq!(archived.id, id);
    assert_eq!(archived.external_ref, ext("ARC-1"));
    assert_eq!(client.get_policy_id_by_external_ref(&owner, &"ARC-1".to_string()), None);
    assert!(!client.restore_policy(&other, id));
    assert!(client.restore_policy(&owner, id));
    assert_eq!(client.get_policy(id).unwrap(), before);
    assert!(client.get_archived_policy(id).is_none());
    assert_eq!(client.get_policy_id_by_external_ref(&owner, &"ARC-1".to_string()), Some(id));
    assert!(!client.restore_policy(&owner, id));
}

#[test]
fn restore_reactivates_deactivated_policy() {
    let (mut client, owner, _) = setup();
    let id = create(&mut client, owner.clone(), policy_name(), CoverageType::Health, 100, 10_000, None, 0);
    assert!(client.deactivate_policy(&owner, id));
    assert!(client.archive_policy(&owner, id));
    assert!(client.restore_policy(&owner, id));
    assert!(client.get_policy(id).unwrap().active);
}

#[test]
fn premiums_paid_and_totalled() {
    let (mut client, owner, other) = setup();
    let a = create(&mut client, owner.clone(), policy_name(), CoverageType::Health, 100, 1, None, 0);
    let b = create(&mut client, owner.clone(), policy_name(), CoverageType::Life, 250, 1, None, 0);
    let c = create(&mut client, other.clone(), policy_name(), CoverageType::Auto, 999, 1, None, 0);
    let d = create(&mut client, owner.clone(), policy_name(), CoverageType::Auto, 40, 1, None, 0);
    assert_eq!(client.get_total_monthly_premium(&owner), 390);
    assert_eq!(client.get_total_monthly_premium(&other), 999);
    assert!(client.deactivate_policy(&owner, d));
    assert_eq!(client.get_total_monthly_premium(&owner), 350);
    assert!(client.archive_policy(&owner, b));
    assert_eq!(client.get_total_monthly_premium(&owner), 100);
    let nobody = Address::new("GNOBODY".to_string());
    assert_eq!(client.get_total_monthly_premium(&nobody), 0);

    assert!(client.pay_premium(&owner, a, 100));
    assert_eq!(client.get_policy(a).unwrap().next_payment_date, 100 + 2_592_000);
    assert!(!client.pay_premium(&owner, d, 100));
    assert!(!client.pay_premium(&owner, b, 100));

    let paid = client.batch_pay_premiums(&owner, &vec![a, a, c, d, 42], 500);
    assert_eq!(paid, 2);
    assert_eq!(client.get_policy(a).unwrap().next_payment_date, 500 + 2_592_000);
    assert_eq!(client.get_policy(c).unwrap().next_payment_date, 2_592_000);
    assert_eq!(client.get_policy(d).unwrap().next_payment_date, 2_592_000);
    assert_eq!(client.batch_pay_premiums(&other, &vec![], 500), 0);
}

#[test]
fn active_policies_are_paged_by_cursor() {
    let (mut client, owner, other) = setup();
    let mut ids = Vec::new();
    for i in 0..7 {
        ids.push(
            create(&mut client, owner.clone(), format!("P{}", i), CoverageType::Health, 1, 1, None, 0),
        );
        create(&mut client, other.clone(), "X".to_string(), CoverageType::Life, 1, 1, None, 0);
    }
    assert!(client.deactivate_policy(&owner, ids[2]));
    assert!(client.archive_policy(&owner, ids[4]));

    let page1 = client.get_active_policies(&owner, 0, 2);
    assert_eq!(page1.count, 2);
    assert_eq!(page1.items.iter().map(|p| p.id).collect::<Vec<_>>(), vec![ids[0], ids[1]]);
    assert_eq!(page1.next_cursor, ids[1]);

    let page2 = client.get_active_policies(&owner, page1.next_cursor, 2);
    assert_eq!(page2.items.iter().map(|p| p.id).collect::<Vec<_>>(), vec![ids[3], ids[5]]);
    assert_eq!(page2.next_cursor, ids[5]);

    let page3 = client.get_active_policies(&owner, page2.next_cursor, 2);
    assert_eq!(page3.items.iter().map(|p| p.id).collect::<Vec<_>>(), vec![ids[6]]);
    assert_eq!(page3.count, 1);
    assert_eq!(page3.next_cursor, 0);

    let all = client.get_active_policies(&owner, 0, 0);
    assert_eq!(all.count, 5);
    assert_eq!(all.next_cursor, 0);
    assert!(all.items.iter().all(|p| p.owner == owner && p.active));

    let empty = client.get_active_policies(&Address::new("GNONE".to_string()), 0, 10);
    assert_eq!(empty.count, 0);
    assert_eq!(empty.next_cursor, 0);
    assert!(empty.items.is_empty());
}

#[test]
fn page_size_is_clamped() {
    let (mut client, owner, _) = setup();
    for _ in 0..60 {
        create(&mut client, owner.clone(), policy_name(), CoverageType::Health, 1, 1, None, 0);
    }
    let page = client.get_active_policies(&owner, 0, 500);
    assert_eq!(page.count, 50);
    assert_eq!(page.next_cursor, 50);
    let default = client.get_active_policies(&owner, 0, 0);
    assert_eq!(default.count, 20);
    assert_eq!(default.next_cursor, 20);
    let rest = client.get_active_policies(&owner, 50, 50);
    assert_eq!(rest.count, 10);
    assert_eq!(rest.next_cursor, 0);
}

#[test]
fn pause_admin_can_be_set() {
    let (mut client, owner, _) = setup();
    assert!(client.set_pause_admin(owner));
}

fn stored_state() -> (Insurance, Address) {
    let (mut client, owner, _) = setup();
    create(&mut client, owner.clone(), policy_name(), CoverageType::Health, 100, 1_000, ext("REF-1"), 0);
    create(&mut client, owner.clone(), policy_name(), CoverageType::Life, 200, 2_000, None, 0);
    assert!(client.archive_policy(&owner, 2));
    (client, owner)
}

#[test]
fn parts_roundtrip_keeps_state() {
    let (client, owner) = stored_state();
    let parts = client.into_parts();
    assert_eq!(parts.next_id, 2);
    assert_eq!(parts.policies.len(), 1);
    assert_eq!(parts.archived.len(), 1);
    let restored = Insurance::from_parts(parts).expect("stored parts are consistent");
    assert_eq!(restored.get_policy(1).unwrap().external_ref, ext("REF-1"));
    assert!(restored.get_policy(2).is_none());
    assert_eq!(restored.get_archived_policy(2).unwrap().id, 2);
    assert_eq!(restored.get_policy_id_by_external_ref(&owner, &"REF-1".to_string()), Some(1));
}

#[test]
fn parts_with_repeated_policy_are_refused() {
    let (client, _) = stored_state();
    let mut parts = client.into_parts();
    let copy = parts.policies[0].clone();
    parts.policies.push(copy);
    assert!(Insurance::from_parts(parts).is_none());
}

#[test]
fn parts_with_id_beyond_counter_are_refused() {
    let (client, _) = stored_state();
    let mut parts = client.into_parts();
    parts.next_id = 1;
    assert!(Insurance::from_parts(parts).is_none());
}

#[test]
fn parts_missing_owner_list_are_refused() {
    let (client, _) = stored_state();
    let mut parts = client.into_parts();
    parts.owner_index.clear();
    assert!(Insurance::from_parts(parts).is_none());
}

#[test]
fn parts_with_dangling_binding_are_refused() {
    let (client, owner) = stored_state();
    let mut parts = client.into_parts();
    parts.ref_index.push(ExternalRefBinding { owner, external_ref: "REF-9".to_string(), policy_id: 7 });
    assert!(Insurance::from_parts(parts).is_none());
}

#[test]
fn parts_missing_binding_are_refused() {
    let (client, _) = stored_state();
    let mut parts = client.into_parts();
    parts.ref_index.clear();
    assert!(Insurance::from_parts(parts).is_none());
}

#[test]
fn empty_parts_are_accepted() {
    let parts = Insurance::new().into_parts();
    let restored = Insurance::from_parts(parts).expect("empty state is consistent");
    assert!(restored.get_policy(1).is_none());
}

#[test]
fn premium_total_fit_is_checked() {
    let (mut client, owner, other) = setup();
    assert!(client.total_monthly_premium_fits(&owner));
    create(&mut client, owner.clone(), policy_name(), CoverageType::Health, i128::MAX, 1, None, 0);
    assert!(client.total_monthly_premium_fits(&owner));
    assert_eq!(client.get_total_monthly_premium(&owner), i128::MAX);
    create(&mut client, owner.clone(), policy_name(), CoverageType::Life, 1, 1, None, 0);
    assert!(!client.total_monthly_premium_fits(&owner));
    assert!(client.deactivate_policy(&owner, 2));
    assert!(client.total_monthly_premium_fits(&owner));
    create(&mut client, other.clone(), policy_name(), CoverageType::Life, i128::MIN, 1, None, 0);
    create(&mut client, other.clone(), policy_name(), CoverageType::Life, -1, 1, None, 0);
    assert!(!client.total_monthly_premium_fits(&other));
}

#[test]
fn walking_all_pages_lists_each_active_policy_once() {
    let (mut client, owner, other) = setup();
    let mut ids = Vec::new();
    for i in 0..23 {
        ids.push(create(&mut client, owner.clone(), format!("P{}", i), CoverageType::Auto, 1, 1, None, 0));
        create(&mut client, other.clone(), "X".to_string(), CoverageType::Life, 1, 1, None, 0);
    }
    assert!(client.deactivate_policy(&owner, ids[3]));
    assert!(client.archive_policy(&owner, ids[10]));
    let expected: Vec<u32> =
        ids.iter().copied().filter(|id| *id != ids[3] && *id != ids[10]).collect();
    for limit in [1u32, 2, 3, 7, 21, 0, 60] {
        let lim = clamp_limit(limit) as usize;
        let mut cursor = 0;
        let mut seen = Vec::new();
        let mut pages = 0;
        loop {
            let page = client.get_active_policies(&owner, cursor, limit);
            pages += 1;
            assert!(page.items.len() <= lim);
            seen.extend(page.items.iter().map(|p| p.id));
            if page.next_cursor == 0 {
                break;
            }
            cursor = page.next_cursor;
        }
        assert_eq!(seen, expected);
        assert!(pages <= expected.len() / lim + 1);
    }
}

#[test]
fn premium_paid_only_bounds_time_for_payable_policy() {
    let (mut client, owner, other) = setup();
    create(&mut client, owner.clone(), policy_name(), CoverageType::Health, 10, 100, None, 0);
    assert!(!client.pay_premium(&other, 1, u64::MAX));
    assert!(!client.pay_premium(&owner, 9, u64::MAX));
    assert!(client.pay_premium(&owner, 1, 5));
    assert_eq!(client.get_policy(1).unwrap().next_payment_date, 5 + PREMIUM_INTERVAL_SECS);
}

#[test]
fn external_ref_bytes_are_checked() {
    assert_eq!(validate_external_ref_bytes(b"INV-1:a_b.c"), Ok(()));
    assert_eq!(validate_external_ref_bytes(b""), Err(InsuranceError::InvalidExternalRefLength));
    assert_eq!(validate_external_ref_bytes(&[b'a'; 129]), Err(InsuranceError::InvalidExternalRefLength));
    assert_eq!(validate_external_ref_bytes(&[0xC3, 0xA9]), Err(InsuranceError::InvalidExternalRefCharset));
}

#[test]
fn archived_policy_restored_later_comes_back_active() {
    let (mut client, owner, _) = setup();
    let id = create(&mut client, owner.clone(), policy_name(), CoverageType::Life, 30, 3_000, ext("LATE-1"), 9);
    assert!(client.deactivate_policy(&owner, id));
    let before = client.get_policy(id).unwrap();
    assert!(client.archive_policy(&owner, id));
    let other = create(&mut client, owner.clone(), policy_name(), CoverageType::Auto, 5, 50, ext("LATE-2"), 0);
    assert!(client.pay_premium(&owner, other, 100));
    assert!(client.restore_policy(&owner, id));
    let after = client.get_policy(id).unwrap();
    assert!(after.active);
    assert_eq!(after.next_payment_date, before.next_payment_date);
    assert_eq!(after.external_ref, ext("LATE-1"));
    assert!(client.get_archived_policy(id).is_none());
    assert_eq!(client.get_policy_id_by_external_ref(&owner, &"LATE-1".to_string()), Some(id));
}
