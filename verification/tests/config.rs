use world_pumpkin::config::{
    config_toml, parse_config, permission_nodes, Config, PERM_LIMIT_BYPASS, PERM_UPDATE_NOTIFY,
};

#[test]
fn default_config_is_valid() {
    Config::default().validate().unwrap();
}

#[test]
fn default_config_uses_fast_no_physics_writes() {
    let config = Config::default();

    assert!(config.fast_mode);
    assert!(config.notify_clients);
}

#[test]
fn legacy_write_flags_are_ignored() {
    let config = parse_config(
        r#"
max_blocks_per_operation = 250000
blocks_per_tick = 8192
max_queued_operations = 4
max_queued_blocks = 1000000
max_history_entries = 15
max_history_blocks = 500000
allow_chunk_direct_writes = true
notify_clients = true
skip_neighbor_updates = true
skip_block_callbacks = true
skip_block_drops = true
skip_redstone_wire_state_replacement = true
"#,
    )
    .unwrap();

    assert!(config.fast_mode);
    assert!(config.notify_clients);
}

#[test]
fn config_parser_keeps_defaults_for_missing_fields() {
    let config = parse_config(
        r#"
blocks_per_tick = 4096
notify_clients = false
"#,
    )
    .unwrap();

    assert_eq!(
        config.max_blocks_per_operation,
        Config::default().max_blocks_per_operation
    );
    assert_eq!(config.blocks_per_tick, 4096);
    assert!(!config.notify_clients);
}

#[test]
fn config_parser_accepts_comments_and_whitespace() {
    let config = parse_config(
        r#"
            # WorldPumpkin config
            max_history_entries = 7 # inline comment
            fast_mode = false
            "#,
    )
    .unwrap();

    assert_eq!(config.max_history_entries, 7);
    assert!(!config.fast_mode);
}

#[test]
fn rejects_zero_limits() {
    let config = Config {
        blocks_per_tick: 0,
        ..Config::default()
    };

    assert!(config.validate().is_err());
}

#[test]
fn limit_bypass_is_not_granted_to_ops_by_default() {
    let nodes = permission_nodes();
    let bypass = nodes
        .iter()
        .find(|node| node.node == PERM_LIMIT_BYPASS)
        .unwrap();

    assert!(!bypass.default_op);
}

#[test]
fn every_other_permission_is_granted_to_ops() {
    let nodes = permission_nodes();
    assert_eq!(nodes.len(), 11);
    for node in &nodes {
        assert_eq!(node.default_op, node.node != PERM_LIMIT_BYPASS, "{}", node.node);
    }
    assert!(nodes.iter().any(|node| node.node == PERM_UPDATE_NOTIFY));
}

#[test]
fn default_config_text_matches_documentation() {
    let text = config_toml(&Config::default());
    assert_eq!(
        text,
        "max_blocks_per_operation = 250000\n\
blocks_per_tick = 8192\n\
max_queued_operations = 4\n\
max_queued_blocks = 1000000\n\
max_history_entries = 15\n\
max_history_blocks = 500000\n\
fast_mode = true\n\
notify_clients = true\n\
update_check_enabled = true\n\
update_notify_on_join = true\n"
    );
}

#[test]
fn stored_config_reads_back_unchanged() {
    let config = Config {
        max_blocks_per_operation: 123,
        blocks_per_tick: 7,
        max_queued_operations: 2,
        max_queued_blocks: 18446744073709551615,
        max_history_entries: 1,
        max_history_blocks: 99,
        fast_mode: false,
        notify_clients: false,
        update_check_enabled: false,
        update_notify_on_join: true,
    };
    let text = config_toml(&config);
    assert_eq!(parse_config(&text).unwrap(), config);
}

#[test]
fn update_settings_are_read() {
    let config = parse_config("update_check_enabled = false\nupdate_notify_on_join = false\n").unwrap();
    assert!(!config.update_check_enabled);
    assert!(!config.update_notify_on_join);
}

#[test]
fn line_without_equals_is_reported_with_its_number() {
    let err = parse_config("fast_mode = true\n\nfast_mode\n").unwrap_err();
    assert_eq!(err, "line 3 is missing `=`");
}

#[test]
fn bad_integer_is_reported() {
    let err = parse_config("blocks_per_tick = -4").unwrap_err();
    assert_eq!(err, "failed to parse `blocks_per_tick` as integer: invalid digit found in string");
    let err = parse_config("max_queued_blocks = 18446744073709551616").unwrap_err();
    assert_eq!(
        err,
        "failed to parse `max_queued_blocks` as integer: number too large to fit in target type"
    );
    let err = parse_config("max_history_entries =").unwrap_err();
    assert_eq!(
        err,
        "failed to parse `max_history_entries` as integer: cannot parse integer from empty string"
    );
}

#[test]
fn bad_bool_is_reported() {
    let err = parse_config("fast_mode = yes").unwrap_err();
    assert_eq!(err, "failed to parse `fast_mode` as bool");
}

#[test]
fn first_error_wins() {
    let err = parse_config("fast_mode = maybe\nnonsense\n").unwrap_err();
    assert_eq!(err, "failed to parse `fast_mode` as bool");
}

#[test]
fn zero_limits_name_the_setting() {
    let config = Config {
        max_history_blocks: 0,
        ..Config::default()
    };
    assert_eq!(
        config.validate().unwrap_err(),
        "max_history_blocks must be greater than 0"
    );
    let config = Config {
        max_blocks_per_operation: 0,
        blocks_per_tick: 0,
        ..Config::default()
    };
    assert_eq!(
        config.validate().unwrap_err(),
        "max_blocks_per_operation must be greater than 0"
    );
}

#[test]
fn missing_file_is_created_with_defaults() {
    let (config, write) = Config::load_from(None, "plugins/config.toml").unwrap();
    assert_eq!(config, Config::default());
    assert_eq!(write.unwrap(), config_toml(&Config::default()));
}

#[test]
fn normal_file_is_left_as_written() {
    let text = config_toml(&Config::default());
    let (config, write) = Config::load_from(Some(&text), "config.toml").unwrap();
    assert_eq!(config, Config::default());
    assert!(write.is_none());
}

#[test]
fn partial_file_is_rewritten_in_normal_form() {
    let (config, write) = Config::load_from(Some("blocks_per_tick = 10\n"), "config.toml").unwrap();
    assert_eq!(config.blocks_per_tick, 10);
    assert_eq!(write.unwrap(), config_toml(&config));
}

#[test]
fn unreadable_file_names_its_path() {
    let err = Config::load_from(Some("oops"), "data/config.toml").unwrap_err();
    assert_eq!(err, "failed to parse data/config.toml: line 1 is missing `=`");
}

#[test]
fn invalid_file_is_refused() {
    let err = Config::load_from(Some("max_queued_operations = 0"), "config.toml").unwrap_err();
    assert_eq!(err, "max_queued_operations must be greater than 0");
}

#[test]
fn permission_nodes_register_each_documented_node() {
    let nodes = permission_nodes();
    let names: Vec<&str> = nodes.iter().map(|node| node.node).collect();
    assert_eq!(
        names,
        vec![
            "WorldPumpkin:command.set",
            "WorldPumpkin:command.replace",
            "WorldPumpkin:command.walls",
            "WorldPumpkin:command.move",
            "WorldPumpkin:command.pos",
            "WorldPumpkin:command.undo",
            "WorldPumpkin:command.redo",
            "WorldPumpkin:command.reload",
            "WorldPumpkin:command.status",
            "WorldPumpkin:limit.bypass",
            "WorldPumpkin:update.notify",
        ]
    );
    assert_eq!(nodes[3].description, "Allows moving the contents of a WorldPumpkin selection.");
    assert_eq!(nodes[10].description, "Receives WorldPumpkin update notifications on join.");
}
