use cibars::app::SourceHealth;
use cibars::ui::header::Header;
use cibars::ui::statusbar::{Segment, Tone};

fn segments(profile: &str, region: &str, repo: &str, health: &SourceHealth) -> Vec<Segment> {
    Header { profile, region, repo, aws_health: health }.segments("14:32:05")
}

fn text(segs: &[Segment]) -> String {
    segs.iter().map(|s| s.text.as_str()).collect()
}

#[test]
fn renders_sso_expired_when_auth_failed() {
    let health = SourceHealth::AuthFailed { since: 1_000 };
    let content = text(&segments("my-profile", "eu-west-1", "owner/repo", &health));
    assert!(content.contains("SSO expired"), "got: {content}");
}

#[test]
fn renders_profile_red_when_auth_failed() {
    let health = SourceHealth::AuthFailed { since: 1_000 };
    let segs = segments("my-profile", "eu-west-1", "owner/repo", &health);
    let profile = segs.iter().find(|s| s.text == "my-profile").expect("profile not found");
    assert_eq!(profile.tone, Tone::Failed);
}

#[test]
fn renders_profile_default_when_healthy() {
    let segs = segments("my-profile", "eu-west-1", "owner/repo", &SourceHealth::Healthy);
    let content = text(&segs);
    assert!(!content.contains("SSO expired"), "got: {content}");
    let profile = segs.iter().find(|s| s.text == "my-profile").expect("profile not found");
    assert_eq!(profile.tone, Tone::Plain);
}

#[test]
fn renders_profile_region_repo() {
    let content = text(&segments("my-profile", "eu-west-1", "owner/repo", &SourceHealth::Healthy));
    assert!(content.contains("my-profile"), "got: {content}");
    assert!(content.contains("eu-west-1"), "got: {content}");
    assert!(content.contains("owner/repo"), "got: {content}");
}

#[test]
fn renders_all_separator_pipes() {
    let content = text(&segments("p", "r", "o/r", &SourceHealth::Healthy));
    let count = content.matches(" \u{2502} ").count();
    assert_eq!(count, 3, "expected 3 separators, got {count} in: {content}");
}

#[test]
fn renders_timestamp_in_dark_gray() {
    let segs = segments("p", "r", "o/r", &SourceHealth::Healthy);
    let last = segs.last().unwrap();
    assert_eq!(last.text, "14:32:05");
    assert_eq!(last.tone, Tone::Dim);
}

#[test]
fn renders_dim_checkmark_when_unknown() {
    let segs = segments("my-profile", "eu-west-1", "owner/repo", &SourceHealth::Unknown);
    let check = segs.iter().find(|s| s.text.contains('\u{2713}')).expect("✓ not found in row");
    assert_eq!(check.tone, Tone::Dim);
}

#[test]
fn renders_green_checkmark_when_healthy() {
    let segs = segments("my-profile", "eu-west-1", "owner/repo", &SourceHealth::Healthy);
    let check = segs.iter().find(|s| s.text.contains('\u{2713}')).expect("✓ not found in row");
    assert_eq!(check.tone, Tone::Success);
}

#[test]
fn header_line_in_full() {
    let content = text(&segments("dev", "eu-west-1", "acme/backend", &SourceHealth::Healthy));
    assert_eq!(content, "dev \u{2713} \u{2502} eu-west-1 \u{2502} acme/backend \u{2502} 14:32:05");
}
