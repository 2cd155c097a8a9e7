use visage::pam::auth_decision;
use visage::pam::setcred_decision;
use visage::pam::VerifyOutcome;
use visage::pam::LOG_AUTHPRIV;
use visage::pam::LOG_ERR;
use visage::pam::LOG_INFO;
use visage::pam::LOG_WARNING;
use visage::pam::PAM_CONV;
use visage::pam::PAM_IGNORE;
use visage::pam::PAM_SUCCESS;
use visage::pam::PAM_TEXT_INFO;

#[test]
fn pam_constants_match_spec() {
    // Verify against the values defined in <security/pam_modules.h>.
    // These are load-bearing: wrong values silently mis-route the PAM stack.
    assert_eq!(PAM_SUCCESS, 0, "PAM_SUCCESS must be 0");
    assert_eq!(PAM_IGNORE, 25, "PAM_IGNORE must be 25");
}

#[test]
fn pam_conv_constant_matches_spec() {
    assert_eq!(PAM_CONV, 5, "PAM_CONV must be 5");
}

#[test]
fn pam_text_info_matches_spec() {
    assert_eq!(PAM_TEXT_INFO, 4, "PAM_TEXT_INFO must be 4");
}

#[test]
fn syslog_constants_match_spec() {
    assert_eq!(LOG_AUTHPRIV, 80, "LOG_AUTHPRIV must be 10 << 3 = 80");
    assert_eq!(LOG_INFO, 6, "LOG_INFO must be 6");
    assert_eq!(LOG_WARNING, 4, "LOG_WARNING must be 4");
    assert_eq!(LOG_ERR, 3, "LOG_ERR must be 3");
}

#[test]
fn auth_decision_fail_safe() {
    // only a positive match may return success; every failure abstains
    assert_eq!(auth_decision(VerifyOutcome::Matched), PAM_SUCCESS);
    assert_eq!(auth_decision(VerifyOutcome::NotMatched), PAM_IGNORE);
    assert_eq!(auth_decision(VerifyOutcome::Unavailable), PAM_IGNORE);
    for outcome in [
        VerifyOutcome::Matched,
        VerifyOutcome::NotMatched,
        VerifyOutcome::Unavailable,
    ] {
        let code = auth_decision(outcome);
        assert!(code == PAM_SUCCESS || code == PAM_IGNORE);
    }
}

#[test]
fn setcred_always_ignores() {
    assert_eq!(setcred_decision(), PAM_IGNORE);
}
