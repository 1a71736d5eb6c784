use fvm::doctor::{is_flutter_path_correct, smlink_version, DoctorError};
use fvm::download_release::parse_content_length;
use fvm::installation_path::{
    child_path, get_default_path, get_installation_path, get_installed_versions, link_dir_name,
    InstallationRoot,
};
use fvm::progress_bar::{
    progress_bar_line, AsyncProgressBar, NotStartedError, SpinnerSignal, SpinnerStep,
};
use std::time::Duration;

fn v(xs: &[&str]) -> Vec<String> {
    xs.iter().map(|x| x.to_string()).collect()
}

#[test]
fn installation_root_choice() {
    assert!(matches!(get_installation_path(None), InstallationRoot::UnderHome));
    assert!(matches!(get_installation_path(Some(String::new())), InstallationRoot::UnderHome));
    match get_installation_path(Some("/opt/fvm".to_string())) {
        InstallationRoot::Custom(p) => assert_eq!(p, "/opt/fvm"),
        other => panic!("unexpected {:?}", other),
    }
}

#[test]
fn default_path_under_home() {
    assert_eq!(get_default_path(&v(&["/", "home", "me"])), v(&["/", "home", "me", ".fvm"]));
    assert_eq!(child_path(&v(&[]), "x"), v(&["x"]));
    assert_eq!(link_dir_name(), "smlink");
}

#[test]
fn installed_versions_skip_files_and_link() {
    let entries = vec![
        ("2.0.4-stable".to_string(), true),
        ("aliases".to_string(), false),
        ("smlink".to_string(), true),
        ("2.2.0-beta".to_string(), true),
    ];
    assert_eq!(get_installed_versions(&entries), v(&["2.0.4-stable", "2.2.0-beta"]));
    assert!(get_installed_versions(&vec![]).is_empty());
}

#[test]
fn flutter_path_check() {
    let root = v(&["/", "home", "me", ".fvm"]);
    let good = v(&["/", "home", "me", ".fvm", "smlink", "flutter", "bin", "flutter"]);
    let bad = v(&["/", "usr", "bin", "flutter"]);
    assert_eq!(is_flutter_path_correct(Some(good.clone()), &root), Some(true));
    assert_eq!(is_flutter_path_correct(Some(bad), &root), Some(false));
    assert_eq!(is_flutter_path_correct(None, &root), None);
    assert_eq!(smlink_version(&root), good);
}

#[test]
fn doctor_error_message() {
    let e = DoctorError::PathNotFound("/opt/x".to_string());
    assert_eq!(e.message(), "Couldn't find this path: /opt/x");
}

#[test]
fn content_length_values() {
    assert_eq!(parse_content_length("123"), Some(123));
    assert_eq!(parse_content_length("0"), Some(0));
    assert_eq!(parse_content_length("+5"), Some(5));
    assert_eq!(parse_content_length("-7"), Some(-7));
    assert_eq!(parse_content_length("007"), Some(7));
    assert_eq!(parse_content_length("2147483647"), Some(i32::MAX));
    assert_eq!(parse_content_length("-2147483648"), Some(i32::MIN));
}

#[test]
fn content_length_refusals() {
    for bad in ["", "-", "+", "2147483648", "-2147483649", "12a", " 1", "1 ", "99999999999999999999", "+-1"] {
        assert_eq!(parse_content_length(bad), None, "{:?}", bad);
        assert!(bad.parse::<i32>().is_err());
    }
}

#[test]
fn progress_bar_half() {
    let line = progress_bar_line(16, 5, 50);
    assert_eq!(line, "\r[*****.....]- 50%");
}

#[test]
fn progress_bar_edges() {
    assert_eq!(progress_bar_line(10, 0, 0), "\r[....]-  0%");
    assert_eq!(progress_bar_line(10, 4, 100), "\r[****]-100%");
    assert_eq!(progress_bar_line(10, -3, 5), "\r[.......]-  5%");
    assert_eq!(progress_bar_line(10, 6, 1234), "\r[******]-1234%");
    assert_eq!(progress_bar_line(80, 74, 100).chars().count(), 82);
}

#[test]
fn spinner_frames_and_steps() {
    let pb = AsyncProgressBar::start(v(&["|", "/", "-", "\\"]), Duration::from_millis(100), "Unpacking files".to_string());
    assert_eq!(pb.frame_count(), 4);
    assert_eq!(pb.interval(), Duration::from_millis(100));
    assert_eq!(pb.frame(0), "\r| - Unpacking files");
    assert_eq!(pb.frame(3), "\r\\ - Unpacking files");
    assert_eq!(pb.step(0, SpinnerSignal::Empty), SpinnerStep::Next { tick: 1, pause: false });
    assert_eq!(pb.step(3, SpinnerSignal::Empty), SpinnerStep::Next { tick: 0, pause: false });
    assert_eq!(pb.step(1, SpinnerSignal::Disconnected), SpinnerStep::Next { tick: 2, pause: true });
    assert_eq!(pb.step(2, SpinnerSignal::Stop), SpinnerStep::Finish);
    assert_eq!(pb.clear_line(), format!("\r{}\r", " ".repeat(19)));
    assert!(pb.stop().is_ok());
}

#[test]
fn spinner_clear_line_counts_bytes() {
    let pb = AsyncProgressBar::start(v(&["*"]), Duration::from_millis(1), "é".to_string());
    assert_eq!(pb.clear_line(), format!("\r{}\r", " ".repeat(6)));
}

#[test]
fn not_started_message() {
    assert_eq!(NotStartedError.message(), "async progress bar not started");
}
