use elm_core::runtime::session::{
    age, is_server_choice, server_argument, session_arguments, session_length,
    session_variables, tail_start, Age, SessionLength,
};

fn strings(list: &[&str]) -> Vec<String> {
    list.iter().map(|s| s.to_string()).collect()
}

fn pairs(list: &[(&str, &str)]) -> Vec<(String, String)> {
    list.iter().map(|(k, v)| (k.to_string(), v.to_string())).collect()
}

#[test]
fn an_argument_that_starts_with_server_chooses_one() {
    assert!(is_server_choice("/server:tranquility"));
    assert!(is_server_choice("/server:"));
    assert!(!is_server_choice("/server"));
    assert!(!is_server_choice("server:tq"));
    assert!(!is_server_choice(" /server:tq"));
    assert!(!is_server_choice("/Server:tq"));
    assert!(!is_server_choice(""));
}

#[test]
fn the_test_server_wins_over_the_manifest() {
    let configured = strings(&["/server:thunderdome"]);
    assert_eq!(server_argument(true, Some(&configured)), "/server:singularity");
    assert_eq!(server_argument(true, None), "/server:singularity");
}

#[test]
fn the_manifest_chooses_the_server_otherwise() {
    let configured = strings(&["/noconsole", "/server:thunderdome", "/server:other"]);
    assert_eq!(server_argument(false, Some(&configured)), "/server:thunderdome");
}

#[test]
fn the_main_server_is_the_default() {
    assert_eq!(server_argument(false, None), "/server:tranquility");
    assert_eq!(server_argument(false, Some(&vec![])), "/server:tranquility");
    assert_eq!(server_argument(false, Some(&strings(&["/noconsole"]))), "/server:tranquility");
}

#[test]
fn the_arguments_of_a_session_come_in_order() {
    assert_eq!(
        session_arguments(false, true, None, strings(&["/a", "/b"])),
        strings(&["/server:tranquility", "/triPlatform:dx12", "/a", "/b"])
    );
    assert_eq!(
        session_arguments(true, false, None, strings(&["/a"])),
        strings(&["/server:singularity", "/a"])
    );
    assert_eq!(session_arguments(false, false, None, vec![]), strings(&["/server:tranquility"]));
}

#[test]
fn a_session_without_variables_gets_the_defaults() {
    assert_eq!(
        session_variables(None, false, false, ""),
        pairs(&[("DXVK_ASYNC", "1"), ("PROTON_NO_ESYNC", "1"), ("PROTON_NO_FSYNC", "1")])
    );
}

#[test]
fn the_variables_of_the_manifest_take_the_place_of_the_defaults() {
    assert_eq!(
        session_variables(Some(pairs(&[("A", "b")])), false, false, ""),
        pairs(&[("A", "b")])
    );
    assert_eq!(session_variables(Some(vec![]), false, false, "fps"), vec![]);
}

#[test]
fn directx_twelve_sets_the_feature_level_after_the_manifest() {
    assert_eq!(
        session_variables(Some(pairs(&[("VKD3D_FEATURE_LEVEL", "11_0")])), true, false, ""),
        pairs(&[("VKD3D_FEATURE_LEVEL", "11_0"), ("VKD3D_FEATURE_LEVEL", "12_1")])
    );
}

#[test]
fn the_overlay_shows_what_the_user_asks_for() {
    assert_eq!(
        session_variables(Some(vec![]), false, true, "fps,ram"),
        pairs(&[("MANGOHUD", "1"), ("MANGOHUD_CONFIG", "fps,ram")])
    );
    assert_eq!(
        session_variables(Some(vec![]), true, true, ""),
        pairs(&[
            ("VKD3D_FEATURE_LEVEL", "12_1"),
            ("MANGOHUD", "1"),
            ("MANGOHUD_CONFIG", "fps,frametime,gpu_stats,gpu_temp,cpu_stats,cpu_temp,ram,vram"),
        ])
    );
}

#[test]
fn a_session_is_told_in_hours_and_minutes() {
    assert_eq!(session_length(0), SessionLength::Moments);
    assert_eq!(session_length(59), SessionLength::Moments);
    assert_eq!(session_length(60), SessionLength::Minutes(1));
    assert_eq!(session_length(3599), SessionLength::Minutes(59));
    assert_eq!(session_length(3600), SessionLength::Hours(1, 0));
    assert_eq!(session_length(3600 * 5 + 60 * 7 + 59), SessionLength::Hours(5, 7));
    assert_eq!(session_length(u64::MAX), SessionLength::Hours(5_124_095_576_030_431, 0));
}

#[test]
fn an_age_is_told_in_its_largest_unit() {
    assert_eq!(age(0), Age::Seconds(0));
    assert_eq!(age(59), Age::Seconds(59));
    assert_eq!(age(60), Age::Minutes(1));
    assert_eq!(age(3599), Age::Minutes(59));
    assert_eq!(age(3600), Age::Hours(1));
    assert_eq!(age(86_399), Age::Hours(23));
    assert_eq!(age(86_400), Age::Days(1));
    assert_eq!(age(86_400 * 30 + 5), Age::Days(30));
}

#[test]
fn the_tail_of_a_log_starts_where_the_wanted_lines_begin() {
    assert_eq!(tail_start(100, 50), 50);
    assert_eq!(tail_start(50, 50), 0);
    assert_eq!(tail_start(10, 50), 0);
    assert_eq!(tail_start(0, 0), 0);
    assert_eq!(tail_start(7, 0), 7);
}
