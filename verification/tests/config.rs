use autodirector_fix::config::{
    parse_camera_config, CameraConfig, MODE_CAMERAMAN, MODE_CHASE, MODE_FIRST_PERSON, MODE_FIXED,
};

fn settings(config: &CameraConfig) -> [bool; 4] {
    [
        config.fixed,
        config.first_person,
        config.chase,
        config.cameraman,
    ]
}

#[test]
fn parses_camera_switches() {
    let (config, warnings) =
        parse_camera_config("[cameras]\nfirst_person = false\nchase = false").unwrap();
    assert_eq!(
        config.disabled_mask,
        (1 << MODE_FIRST_PERSON) | (1 << MODE_CHASE)
    );
    assert!(warnings.is_empty());
}

#[test]
fn default_config_replaces_the_first_person_camera_only() {
    let config = CameraConfig::default();
    assert_eq!(settings(&config), [true, false, true, true]);
    assert_eq!(config.disabled_mask, 1 << MODE_FIRST_PERSON);
}

#[test]
fn documented_file_reads_as_the_defaults() {
    let (config, warnings) = parse_camera_config(
        "[cameras]\nfixed = true\nfirst_person = false\nchase = true\ncameraman = true\n",
    )
    .unwrap();
    assert_eq!(config, CameraConfig::default());
    assert!(warnings.is_empty());
}

#[test]
fn empty_file_reads_as_the_defaults() {
    assert_eq!(
        parse_camera_config(""),
        Ok((CameraConfig::default(), Vec::new()))
    );
}

#[test]
fn each_camera_has_its_own_bit() {
    let off = |key: &str| {
        let contents = format!("[cameras]\nfirst_person = true\n{key} = false");
        parse_camera_config(&contents).unwrap().0.disabled_mask
    };
    assert_eq!(off("fixed"), 1 << MODE_FIXED);
    assert_eq!(off("first_person"), 1 << MODE_FIRST_PERSON);
    assert_eq!(off("chase"), 1 << MODE_CHASE);
    assert_eq!(off("cameraman"), 1 << MODE_CAMERAMAN);
    assert_eq!(off("something"), 0);
}

#[test]
fn other_spellings_of_the_keys_are_known() {
    let keys = [
        ("point_camera", 0),
        ("fixed", 0),
        ("first-person", 1),
        ("ineye", 1),
        ("in_eye", 1),
        ("chase", 2),
        ("freecam", 3),
        ("free_camera", 3),
    ];
    for (key, index) in keys {
        for value in [true, false] {
            let contents = format!("[cameras]\n{key} = {value}");
            let (config, warnings) = parse_camera_config(&contents).unwrap();
            assert_eq!(settings(&config)[index], value);
            assert!(warnings.is_empty());
        }
    }
}

#[test]
fn comments_and_white_space_are_ignored() {
    let (config, warnings) = parse_camera_config(
        "# a comment = here\r\n  [cameras] # section\r\n\t fixed\u{a0}=\u{3000}false # off\r\n\r\n#fixed = true",
    )
    .unwrap();
    assert_eq!(settings(&config), [false, false, true, true]);
    assert_eq!(
        config.disabled_mask,
        (1 << MODE_FIXED) | (1 << MODE_FIRST_PERSON)
    );
    assert!(warnings.is_empty());
}

#[test]
fn other_sections_do_not_matter() {
    let (config, warnings) = parse_camera_config(
        "fixed = false\nnonsense\n[other]\nchase = maybe\n[cameras]\ncameraman = false\n[ cameras ]\nchase = false",
    )
    .unwrap();
    assert_eq!(settings(&config), [true, false, true, false]);
    assert!(warnings.is_empty());
}

#[test]
fn later_lines_win() {
    let (config, _) =
        parse_camera_config("[cameras]\nchase = false\nfixed = false\nchase = true").unwrap();
    assert_eq!(settings(&config), [false, false, true, true]);
}

#[test]
fn unknown_keys_give_warnings_in_order() {
    let (config, warnings) =
        parse_camera_config("[cameras]\nzoom = true\nchase = false\n Pan = false").unwrap();
    assert_eq!(settings(&config), [true, false, false, true]);
    assert_eq!(
        warnings,
        vec![
            "ignoring unknown cameras key 'zoom'".to_string(),
            "ignoring unknown cameras key 'Pan'".to_string(),
        ]
    );
}

#[test]
fn a_line_without_a_value_is_an_error() {
    assert_eq!(
        parse_camera_config("[cameras]\nfixed = true\n\nfirst_person"),
        Err("line 4: expected key = value".to_string())
    );
}

#[test]
fn a_value_other_than_true_and_false_is_an_error() {
    assert_eq!(
        parse_camera_config("[cameras]\nfixed = yes\nnonsense"),
        Err("line 2: expected true or false".to_string())
    );
    assert_eq!(
        parse_camera_config("[cameras]\nunknown = True"),
        Err("line 2: expected true or false".to_string())
    );
    assert_eq!(
        parse_camera_config("[cameras]\nfixed = true = false"),
        Err("line 2: expected true or false".to_string())
    );
}

#[test]
fn a_return_belongs_to_the_end_of_a_line_only() {
    assert_eq!(
        parse_camera_config("[cameras]\r\nchase = fal\rse\r\n"),
        Err("line 2: expected true or false".to_string())
    );
    let (config, _) = parse_camera_config("[cameras]\rchase = false\n").unwrap();
    assert_eq!(config, CameraConfig::default());
}

#[test]
fn brackets_alone_name_a_section() {
    let (config, _) = parse_camera_config("[cameras]\n[]\nchase = false").unwrap();
    assert_eq!(config, CameraConfig::default());
    assert_eq!(
        parse_camera_config("[cameras]\n["),
        Err("line 2: expected key = value".to_string())
    );
}
