use panolution::config::{default_config, engine_config, parse_u32, process_config, ConfigError, FileConfig};

#[test]
fn default_settings() {
    let c = default_config();
    assert_eq!(c.input_path, "./");
    assert_eq!(c.max_iteration, 1000);
    assert_eq!(c.num_of_threads, 4);
    assert_eq!(c.num_of_samples, vec![500, 2000, 5000]);
    assert_eq!(c.scale_factors, vec![25, 50, 100]);
    assert_eq!(c.num_of_islands, 8);
    assert_eq!(c.population_size, 20);
}

#[test]
fn file_then_command_line_override() {
    let file = FileConfig { input_path: Some("/photos".to_string()), max_iteration: Some(77) };
    let c = process_config(Some(file.clone()), None, None).unwrap();
    assert_eq!(c.input_path, "/photos");
    assert_eq!(c.max_iteration, 77);
    let c = process_config(Some(file), Some("/other".to_string()), Some("12")).unwrap();
    assert_eq!(c.input_path, "/other");
    assert_eq!(c.max_iteration, 12);
    let c = process_config(None, None, None).unwrap();
    assert_eq!(c.input_path, "./");
    assert_eq!(c.max_iteration, 1000);
    let partial = FileConfig { input_path: None, max_iteration: Some(5) };
    let c = process_config(Some(partial), None, None).unwrap();
    assert_eq!(c.input_path, "./");
    assert_eq!(c.max_iteration, 5);
}

#[test]
fn bad_command_line_integer() {
    assert_eq!(process_config(None, None, Some("12a")).unwrap_err(), ConfigError::BadMaxIteration);
    assert_eq!(process_config(None, None, Some("")).unwrap_err(), ConfigError::BadMaxIteration);
    assert_eq!(process_config(None, None, Some("-3")).unwrap_err(), ConfigError::BadMaxIteration);
}

#[test]
fn decimal_parsing() {
    assert_eq!(parse_u32("0"), Some(0));
    assert_eq!(parse_u32("+42"), Some(42));
    assert_eq!(parse_u32("007"), Some(7));
    assert_eq!(parse_u32("4294967295"), Some(u32::MAX));
    assert_eq!(parse_u32("4294967296"), None);
    assert_eq!(parse_u32("99999999999999999999"), None);
    assert_eq!(parse_u32("+"), None);
    assert_eq!(parse_u32(""), None);
    assert_eq!(parse_u32(" 1"), None);
    assert_eq!(parse_u32("1.5"), None);
    for s in ["0", "+9", "123456", "4294967295", "4294967296", "x", "+", "++1", "-1"] {
        assert_eq!(parse_u32(s), s.parse::<u32>().ok());
    }
}

#[test]
fn engine_settings_follow_config() {
    let mut c = default_config();
    c.max_iteration = 9;
    c.stagnation_limit = 11;
    c.max_mutation_rate = 3;
    let e = engine_config(&c);
    assert_eq!(e.num_of_islands, 8);
    assert_eq!(e.population_size, 20);
    assert_eq!(e.max_iteration, 9);
    assert_eq!(e.stagnation_limit, 11);
    assert_eq!(e.max_rate, 3);
}
