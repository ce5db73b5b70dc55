//! Authentication data shapes and the offline-fallback decision taken when
//! the remote side cannot validate a partner identifier. The HTTP calls
//! themselves live outside this crate; what is verified here is the decision
//! of which answer to hand back.

use vstd::prelude::*;
use crate::text::str_eq;

verus! {

/// Answer of a partner validation, login or signup request.
pub struct AuthResponse {
    pub success: bool,
    pub message: String,
    pub data: Option<AuthDataWrapper>,
    pub needs_signup: Option<bool>,
}

pub struct AuthDataWrapper {
    pub partner: PartnerInfo,
}

pub struct AuthData {
    pub partner: PartnerInfo,
    pub access_token: Option<String>,
    pub refresh_token: Option<String>,
}

pub struct PartnerInfo {
    pub partner_id: String,
    pub business_name: String,
    pub partner_type: String,
    pub status: String,
    pub role: Option<String>,
    pub business_address: Option<BusinessAddress>,
    pub app_preferences: Option<AppPreferences>,
}

pub struct BusinessAddress {
    pub street: String,
    pub city: String,
    pub state: String,
    pub zip_code: String,
    pub country: String,
}

pub struct AppPreferences {
    pub language: String,
    pub theme: String,
    pub notifications: NotificationSettings,
}

pub struct NotificationSettings {
    pub orders: bool,
    pub payments: bool,
    pub updates: bool,
}

/// The partner identifiers that are accepted offline for demonstration.
pub open spec fn spec_is_test_partner(id: Seq<char>) -> bool {
    id == "TEST-PARTNER-001"@ || id == "DEMO-PARTNER"@
}

/// Whether a partner identifier belongs to the offline demonstration set.
pub fn is_test_partner(partner_id: &str) -> (r: bool)
    ensures
        r == spec_is_test_partner(partner_id@),
{
    str_eq(partner_id, "TEST-PARTNER-001") || str_eq(partner_id, "DEMO-PARTNER")
}

/// How a partner-validation answer is chosen once the remote call finished.
#[derive(Clone, Copy, Debug, PartialEq, Eq, Structural)]
pub enum ValidationPath {
    /// The remote side answered successfully: its body is the answer.
    UseParsed,
    /// The remote side refused, but the identifier belongs to the offline
    /// demonstration set: answer with the built-in fallback record.
    UseFallback,
    /// The remote side refused and no fallback applies: report the failure.
    Reject,
}

/// Decide which answer a partner validation hands back, given whether the
/// remote call reported success.
pub fn validate_decision(status_ok: bool, partner_id: &str) -> (r: ValidationPath)
    ensures
        status_ok ==> r == ValidationPath::UseParsed,
        !status_ok && spec_is_test_partner(partner_id@) ==> r == ValidationPath::UseFallback,
        !status_ok && !spec_is_test_partner(partner_id@) ==> r == ValidationPath::Reject,
{
    if status_ok {
        ValidationPath::UseParsed
    } else if is_test_partner(partner_id) {
        ValidationPath::UseFallback
    } else {
        ValidationPath::Reject
    }
}

/// The built-in validation answer for an offline demonstration partner.
pub fn fallback_auth_response(partner_id: &str) -> (r: AuthResponse)
    ensures
        r.success == true,
        r.message@ == "Partner ID validated successfully (offline mode)"@,
        r.needs_signup == Some(false),
        r.data matches Some(w) && {
            &&& w.partner.partner_id@ == partner_id@
            &&& w.partner.business_name@ == "Test Auto Parts Shop"@
            &&& w.partner.partner_type@ == "auto_parts_shop"@
            &&& w.partner.status@ == "active"@
            &&& w.partner.role matches Some(role) && role@ == "owner"@
            &&& w.partner.business_address matches Some(addr) && {
                &&& addr.street@ == "123 Main Street"@
                &&& addr.city@ == "Cairo"@
                &&& addr.state@ == "Cairo"@
                &&& addr.zip_code@ == "11511"@
                &&& addr.country@ == "Egypt"@
            }
            &&& w.partner.app_preferences matches Some(prefs) && {
                &&& prefs.language@ == "ar"@
                &&& prefs.theme@ == "light"@
                &&& prefs.notifications.orders == true
                &&& prefs.notifications.payments == true
                &&& prefs.notifications.updates == true
            }
        },
{
    AuthResponse {
        success: true,
        message: "Partner ID validated successfully (offline mode)".to_owned(),
        data: Some(
            AuthDataWrapper {
                partner: PartnerInfo {
                    partner_id: partner_id.to_owned(),
                    business_name: "Test Auto Parts Shop".to_owned(),
                    partner_type: "auto_parts_shop".to_owned(),
                    status: "active".to_owned(),
                    role: Some("owner".to_owned()),
                    business_address: Some(
                        BusinessAddress {
                            street: "123 Main Street".to_owned(),
                            city: "Cairo".to_owned(),
                            state: "Cairo".to_owned(),
                            zip_code: "11511".to_owned(),
                            country: "Egypt".to_owned(),
                        },
                    ),
                    app_preferences: Some(
                        AppPreferences {
                            language: "ar".to_owned(),
                            theme: "light".to_owned(),
                            notifications: NotificationSettings {
                                orders: true,
                                payments: true,
                                updates: true,
                            },
                        },
                    ),
                },
            },
        ),
        needs_signup: Some(false),
    }
}

} // verus!
