use clutch_partners::auth::{fallback_auth_response, is_test_partner, validate_decision, ValidationPath};
use clutch_partners::inventory::InventoryService;
use clutch_partners::pos::POSService;
use clutch_partners::reports::ReportsService;
use clutch_partners::updater::{parse_component, version_parts, UpdateResponse, UpdateService};

#[test]
fn test_partner_set_is_exact() {
    assert!(is_test_partner("TEST-PARTNER-001"));
    assert!(is_test_partner("DEMO-PARTNER"));
    assert!(!is_test_partner("TEST-PARTNER-002"));
    assert!(!is_test_partner(""));
    assert!(!is_test_partner("test-partner-001"));
}

#[test]
fn validation_decision_paths() {
    assert_eq!(validate_decision(true, "ANY"), ValidationPath::UseParsed);
    assert_eq!(validate_decision(false, "DEMO-PARTNER"), ValidationPath::UseFallback);
    assert_eq!(validate_decision(false, "OTHER"), ValidationPath::Reject);
}

#[test]
fn fallback_response_carries_the_demo_partner_record() {
    let r = fallback_auth_response("TEST-PARTNER-001");
    assert!(r.success);
    assert_eq!(r.message, "Partner ID validated successfully (offline mode)");
    assert_eq!(r.needs_signup, Some(false));
    let partner = r.data.unwrap().partner;
    assert_eq!(partner.partner_id, "TEST-PARTNER-001");
    assert_eq!(partner.business_name, "Test Auto Parts Shop");
    assert_eq!(partner.partner_type, "auto_parts_shop");
    assert_eq!(partner.status, "active");
    assert_eq!(partner.role, Some("owner".to_string()));
    let addr = partner.business_address.unwrap();
    assert_eq!(addr.street, "123 Main Street");
    assert_eq!(addr.city, "Cairo");
    assert_eq!(addr.state, "Cairo");
    assert_eq!(addr.zip_code, "11511");
    assert_eq!(addr.country, "Egypt");
    let prefs = partner.app_preferences.unwrap();
    assert_eq!(prefs.language, "ar");
    assert_eq!(prefs.theme, "light");
    assert!(prefs.notifications.orders);
    assert!(prefs.notifications.payments);
    assert!(prefs.notifications.updates);
}

#[test]
fn version_components_parse_with_zero_fallback() {
    assert_eq!(parse_component("0"), 0);
    assert_eq!(parse_component("42"), 42);
    assert_eq!(parse_component("+7"), 7);
    assert_eq!(parse_component(""), 0);
    assert_eq!(parse_component("x"), 0);
    assert_eq!(parse_component("1a"), 0);
    assert_eq!(parse_component("4294967295"), 4294967295);
    assert_eq!(parse_component("4294967296"), 0);
    assert_eq!(version_parts("1.2.3"), vec![1, 2, 3]);
    assert_eq!(version_parts("1.x.3"), vec![1, 0, 3]);
    assert_eq!(version_parts(""), vec![0]);
    assert_eq!(version_parts("1..2"), vec![1, 0, 2]);
    assert_eq!(version_parts("1.2."), vec![1, 2, 0]);
}

#[test]
fn newer_version_comparison_is_componentwise() {
    let svc = UpdateService::new("1.2.3".to_string());
    assert!(svc.is_newer_version("1.2.4"));
    assert!(svc.is_newer_version("1.3.0"));
    assert!(svc.is_newer_version("2.0.0"));
    assert!(!svc.is_newer_version("1.2.3"));
    assert!(!svc.is_newer_version("1.2.2"));
    assert!(!svc.is_newer_version("0.9.9"));
    // Equal shared components: more components counts as newer.
    assert!(svc.is_newer_version("1.2.3.1"));
    assert!(!svc.is_newer_version("1.2"));
    // An overflowing component parses as zero.
    let old = UpdateService::new("1".to_string());
    assert!(!old.is_newer_version("4294967296"));
}

#[test]
fn update_check_reports_download_details_only_when_newer() {
    let svc = UpdateService::new("1.0.0".to_string());
    let resp = UpdateResponse {
        version: "1.1.0".to_string(),
        download_url: "https://example.invalid/pkg".to_string(),
        changelog: "fixes".to_string(),
        force_update: true,
        file_size: 1024,
        release_notes: "notes".to_string(),
    };
    let info = svc.check_for_updates(Some(&resp));
    assert!(info.update_available);
    assert_eq!(info.latest_version, "1.1.0");
    assert_eq!(info.current_version, "1.0.0");
    assert_eq!(info.download_url, Some("https://example.invalid/pkg".to_string()));
    assert_eq!(info.changelog, Some("fixes".to_string()));
    assert!(info.force_update);
    assert_eq!(info.release_notes, Some("notes".to_string()));
    assert_eq!(info.file_size, Some(1024));

    let stale = UpdateResponse {
        version: "0.9.0".to_string(),
        download_url: "https://example.invalid/pkg".to_string(),
        changelog: "fixes".to_string(),
        force_update: false,
        file_size: 1024,
        release_notes: "notes".to_string(),
    };
    let none = svc.check_for_updates(Some(&stale));
    assert!(!none.update_available);
    assert_eq!(none.latest_version, "0.9.0");
    assert!(none.download_url.is_none());
    assert!(none.changelog.is_none());
    assert!(none.release_notes.is_none());
    assert!(none.file_size.is_none());

    let failed = svc.check_for_updates(None);
    assert!(!failed.update_available);
    assert_eq!(failed.latest_version, "1.0.0");
    assert_eq!(failed.current_version, "1.0.0");
    assert!(!failed.force_update);
    assert!(failed.download_url.is_none());
}

#[test]
fn pos_session_starts_fresh() {
    let svc = POSService::new();
    let session = svc.start_session();
    assert_eq!(session.id.len(), 36);
    assert!(session.end_time.is_none());
    assert_eq!(session.total_sales_cents, 0);
    assert_eq!(session.total_transactions, 0);
    let other = svc.start_session();
    assert_ne!(session.id, other.id);
}

#[test]
fn inventory_low_stock_report_is_empty() {
    let svc = InventoryService::new();
    assert!(svc.get_low_stock_items().is_empty());
}

#[test]
fn sales_report_echoes_period_with_zero_totals() {
    let svc = ReportsService::new();
    let report = svc.generate_sales_report("2024-01");
    assert_eq!(report.period, "2024-01");
    assert_eq!(report.total_sales_cents, 0);
    assert_eq!(report.total_transactions, 0);
    assert!(report.top_products.is_empty());
}
