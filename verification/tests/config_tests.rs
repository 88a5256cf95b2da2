use hive_hydra::config::{
    api_key_var_from_upper,
    bot_api_key_var, env_lookup, BotConfig, Config, DEFAULT_BASE_URL,
    DEFAULT_MAX_CONCURRENT_PROCESSES, DEFAULT_QUEUE_CAPACITY, ENV_PREFIX,
};

fn bot(name: &str, key: &str) -> BotConfig {
    BotConfig {
        name: name.to_string(),
        uri: format!("/games/{}", name),
        ai_command: "test_command".to_string(),
        bestmove_command_args: "depth 1".to_string(),
        api_key: key.to_string(),
    }
}

fn env(pairs: &[(&str, &str)]) -> Vec<(String, String)> {
    pairs.iter().map(|(k, v)| (k.to_string(), v.to_string())).collect()
}

#[test]
fn defaults() {
    assert_eq!(DEFAULT_MAX_CONCURRENT_PROCESSES, 5);
    assert_eq!(DEFAULT_QUEUE_CAPACITY, 1000);
    assert_eq!(DEFAULT_BASE_URL, "https://hivegame.com");
    assert_eq!(ENV_PREFIX, "HIVE_HYDRA");
}

#[test]
fn api_key_variable_name() {
    assert_eq!(bot_api_key_var("testbot1"), "HIVE_HYDRA_BOT_TESTBOT1_API_KEY");
    assert_eq!(bot_api_key_var("My-Bot"), "HIVE_HYDRA_BOT_MY-BOT_API_KEY");
}

#[test]
fn env_lookup_last_wins() {
    let e = env(&[("A", "1"), ("B", "2"), ("A", "3")]);
    assert_eq!(env_lookup(&e, &"A".to_string()), Some("3".to_string()));
    assert_eq!(env_lookup(&e, &"B".to_string()), Some("2".to_string()));
    assert_eq!(env_lookup(&e, &"C".to_string()), None);
}

#[test]
fn env_override_of_bot_api_key() {
    let mut config = Config {
        max_concurrent_processes: 10,
        queue_capacity: 1000,
        base_url: "https://hivegame.com".to_string(),
        bots: vec![bot("testbot1", "default_key1"), bot("testbot2", "default_key2")],
    };
    let e = env(&[
        ("HIVE_HYDRA_MAX_CONCURRENT_PROCESSES", "10"),
        ("HIVE_HYDRA_BOT_TESTBOT1_API_KEY", "test_key_1"),
    ]);
    config.apply_bot_env_overrides(&e);
    assert_eq!(config.max_concurrent_processes, 10);
    assert_eq!(config.queue_capacity, 1000);
    assert_eq!(config.base_url, "https://hivegame.com");
    assert_eq!(config.bots.len(), 2);
    assert_eq!(config.bots[0].api_key, "test_key_1");
    assert_eq!(config.bots[0].name, "testbot1");
    assert_eq!(config.bots[0].uri, "/games/testbot1");
    assert_eq!(config.bots[1].api_key, "default_key2");

    // A second application changes nothing.
    config.apply_bot_env_overrides(&e);
    assert_eq!(config.bots[0].api_key, "test_key_1");
    assert_eq!(config.bots[1].api_key, "default_key2");
}

#[test]
fn bot_config_clone_is_equal() {
    let b = bot("x", "k");
    let c = b.clone();
    assert_eq!(c.name, b.name);
    assert_eq!(c.uri, b.uri);
    assert_eq!(c.ai_command, b.ai_command);
    assert_eq!(c.bestmove_command_args, b.bestmove_command_args);
    assert_eq!(c.api_key, b.api_key);
}

#[test]
fn api_key_variable_from_upper_name() {
    assert_eq!(api_key_var_from_upper("TESTBOT1"), "HIVE_HYDRA_BOT_TESTBOT1_API_KEY");
    assert_eq!(api_key_var_from_upper(""), "HIVE_HYDRA_BOT__API_KEY");
}
