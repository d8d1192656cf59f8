//! The supporting types: errors, configuration, validated fields and
//! path checks.

use gps_analyzer::api::config::Config;
use gps_analyzer::api::file_repo::path_is_valid;
use gps_analyzer::api::file_repository::FileRepository;
use gps_analyzer::api::generic::system_info;
use gps_analyzer::api::oauth::OAuthProvider;
use gps_analyzer::api::user::{UserEmail, UserName};
use gps_analyzer::config::rider::RiderConfig;
use gps_analyzer::errors::app_error::AppError;
use gps_analyzer::errors::domain_error::DomainErrorKind;
use gps_analyzer::errors::io_errors::IOError;
use gps_analyzer::errors::service_errors::ServiceError;
use gps_analyzer::model::analysis::Severity;
use gps_analyzer::service::track_processor::compute_bib_from_file_name;
use gps_analyzer::text::{parse_u32_str, str_eq_ignore_ascii_case, trim_str};

#[test]
fn system_info_names_the_service() {
    assert_eq!(system_info(), "Hello world! \n Running GPS-Analyzer v0.2.0");
}

#[test]
fn path_validation_accepts_single_components_only() {
    assert!(path_is_valid("track.gpx"));
    assert!(path_is_valid("track.gpx/"));
    assert!(!path_is_valid(""));
    assert!(!path_is_valid("/track.gpx"));
    assert!(!path_is_valid("."));
    assert!(!path_is_valid(".."));
    assert!(!path_is_valid("a/b"));
    assert!(!path_is_valid("a/.."));
    assert!(path_is_valid("a/."));
    assert!(FileRepository::path_is_valid("upload.gpx"));
    assert!(!FileRepository::path_is_valid("../upload.gpx"));
}

#[test]
fn user_name_requires_substance() {
    assert!(matches!(
        UserName::new("   ").unwrap_err().kind,
        DomainErrorKind::EmptyField(_)
    ));
    let name = UserName::new("  ada ").unwrap();
    assert_eq!(name.to_string(), "ada");
}

#[test]
fn user_email_validation_steps() {
    assert!(matches!(
        UserEmail::new("").unwrap_err().kind,
        DomainErrorKind::EmptyField(_)
    ));
    assert!(matches!(
        UserEmail::new("a b@c.d").unwrap_err().kind,
        DomainErrorKind::IllegalCharacter(_, ' ', 1)
    ));
    assert!(matches!(
        UserEmail::new("nobody").unwrap_err().kind,
        DomainErrorKind::IllegalDataFormat(_, _)
    ));
    assert!(matches!(
        UserEmail::new("@c.d").unwrap_err().kind,
        DomainErrorKind::IllegalDataFormat(_, _)
    ));
    assert!(matches!(
        UserEmail::new("a@").unwrap_err().kind,
        DomainErrorKind::IllegalDataFormat(_, _)
    ));
    assert!(matches!(
        UserEmail::new("a@b@c.d").unwrap_err().kind,
        DomainErrorKind::IllegalDataFormat(_, _)
    ));
    assert!(matches!(
        UserEmail::new("a@bcd").unwrap_err().kind,
        DomainErrorKind::IllegalDataFormat(_, _)
    ));
    let email = UserEmail::new(" someone@example.org ").unwrap();
    assert_eq!(email.to_string(), "someone@example.org");
}

#[test]
fn provider_names_round_trip() {
    assert_eq!(OAuthProvider::Google.name(), "google");
    assert_eq!(OAuthProvider::GitHub.name(), "github");
    assert_eq!(
        OAuthProvider::try_from_name("google").unwrap(),
        OAuthProvider::Google
    );
    assert_eq!(
        OAuthProvider::try_from_name("github").unwrap(),
        OAuthProvider::GitHub
    );
    assert!(OAuthProvider::try_from_name("gitlab").is_err());
}

#[test]
fn rider_config_tracks_classes() {
    let mut config = RiderConfig::new();
    assert_eq!(config.set_class("elite", 1, 99), None);
    assert_eq!(config.set_class("open", 100, 199), None);
    assert_eq!(config.set_class("elite", 1, 49), Some((1, 99)));
    assert_eq!(config.get_class_dimensions("elite"), Some((1, 49)));
    assert_eq!(config.get_class_dimensions("open"), Some((100, 199)));
    assert_eq!(config.get_class_dimensions("junior"), None);
    let names = config.get_classes();
    assert_eq!(names.len(), 2);
    let removed = config.erase_class("open").unwrap();
    assert_eq!(removed.0, "open");
    assert_eq!(removed.1, (100, 199));
    assert_eq!(config.get_class_dimensions("open"), None);
}

#[test]
fn severity_ladder_caps_at_max() {
    assert_eq!(Severity::from_u16(0), Severity::Fine);
    assert_eq!(Severity::from_u16(1), Severity::Minor);
    assert_eq!(Severity::from_u16(2), Severity::Moderate);
    assert_eq!(Severity::from_u16(3), Severity::Severe);
    assert_eq!(Severity::from_u16(4), Severity::Max);
    assert_eq!(Severity::from_u16(250), Severity::Max);
}

#[test]
fn status_codes_follow_the_error_kind() {
    assert_eq!(AppError::invalid_token().status_code(), 401);
    assert_eq!(AppError::auth_error("nope").status_code(), 403);
    assert_eq!(AppError::oauth2("down").status_code(), 424);
    assert_eq!(AppError::token_revoked().status_code(), 401);
    let io = IOError::record_not_fround("users", "missing");
    assert_eq!(AppError::io_error(io).status_code(), 404);
    let svc = ServiceError::empty_track();
    assert_eq!(AppError::service_error(svc).status_code(), 400);
}

#[test]
fn config_builds_redirect_uris() {
    let config = Config::new(
        "127.0.0.1".to_string(),
        3000,
        "http://localhost:3000".to_string(),
        "access".to_string(),
        "refresh".to_string(),
        "gid".to_string(),
        "gsecret".to_string(),
        "hid".to_string(),
        "hsecret".to_string(),
    );
    assert_eq!(
        config.google_redirect_uri(),
        "http://localhost:3000/auth/google/callback"
    );
    assert_eq!(
        config.github_redirect_uri(),
        "http://localhost:3000/auth/github/callback"
    );
    assert_eq!(config.get_server_port(), 3000);
    assert_eq!(config.get_server_host(), "127.0.0.1");
}

#[test]
fn text_helpers_read_numbers_and_fold_case() {
    assert_eq!(parse_u32_str("0"), Some(0));
    assert_eq!(parse_u32_str("+127"), Some(127));
    assert_eq!(parse_u32_str("4294967295"), Some(4294967295));
    assert_eq!(parse_u32_str("4294967296"), None);
    assert_eq!(parse_u32_str(""), None);
    assert_eq!(parse_u32_str("12a"), None);
    assert_eq!(parse_u32_str("-3"), None);
    assert_eq!(trim_str("  epsg:3844\t"), "epsg:3844");
    assert!(str_eq_ignore_ascii_case("EPSG:3844", "epsg:3844"));
    assert!(!str_eq_ignore_ascii_case("EPSG:3844", "epsg:4326"));
}

#[test]
fn bib_and_variant_from_file_stem() {
    assert_eq!(compute_bib_from_file_name("1_42_2").unwrap(), (42, 2));
    assert_eq!(compute_bib_from_file_name("day_7_0_extra").unwrap(), (7, 0));
    assert_eq!(compute_bib_from_file_name("1_ 42 _2").unwrap(), (42, 2));
    assert!(compute_bib_from_file_name("1_42").is_err());
    assert!(compute_bib_from_file_name("").is_err());
    assert!(compute_bib_from_file_name("a_b_c").is_err());
}
