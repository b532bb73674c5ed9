use mdnssdpd::config::{
    default_action, default_log_format, default_mode, default_section_all, has_reflect_output,
    Config, OutputConfig, RouteConfig,
};

fn make_test_config(outputs: Vec<OutputConfig>) -> Config {
    Config {
        route: vec![RouteConfig {
            name: "test".into(),
            input: vec!["eth0".into()],
            filter: None,
            transform: vec![],
            output: outputs,
        }],
    }
}

#[test]
fn test_all_input_interfaces_dedup() {
    let config = Config {
        route: vec![
            RouteConfig {
                name: "r1".into(),
                input: vec!["eth0".into(), "eth1".into()],
                filter: None,
                transform: vec![],
                output: vec![OutputConfig::Log { format: "json".into() }],
            },
            RouteConfig {
                name: "r2".into(),
                input: vec!["eth1".into(), "eth2".into()],
                filter: None,
                transform: vec![],
                output: vec![OutputConfig::Log { format: "json".into() }],
            },
        ],
    };
    let ifaces = config.all_input_interfaces();
    assert_eq!(ifaces, vec!["eth0", "eth1", "eth2"]);
}

#[test]
fn test_all_input_interfaces_empty() {
    let config = Config { route: vec![] };
    assert!(config.all_input_interfaces().is_empty());
}

#[test]
fn test_has_reflect_output_true() {
    let cfg = make_test_config(vec![
        OutputConfig::Reflect { interfaces: vec!["eth1".into()] },
    ]);
    assert!(has_reflect_output(&cfg));
}

#[test]
fn test_has_reflect_output_false() {
    let cfg = make_test_config(vec![OutputConfig::Log { format: "json".into() }]);
    assert!(!has_reflect_output(&cfg));
}

#[test]
fn test_has_reflect_output_mixed() {
    let cfg = make_test_config(vec![
        OutputConfig::Log { format: "json".into() },
        OutputConfig::Reflect { interfaces: vec!["eth1".into()] },
    ]);
    assert!(has_reflect_output(&cfg));
}

#[test]
fn test_has_reflect_output_no_routes() {
    let cfg = Config { route: vec![] };
    assert!(!has_reflect_output(&cfg));
}

#[test]
fn configuration_defaults() {
    assert_eq!(default_mode(), "any");
    assert_eq!(default_action(), "show");
    assert_eq!(default_section_all(), "all");
    assert_eq!(default_log_format(), "json");
}
