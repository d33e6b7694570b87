use rollup_events::database::DBConfig;

fn pairs(entries: &[(&str, &str)]) -> Vec<(String, String)> {
    entries.iter().map(|(k, v)| (k.to_string(), v.to_string())).collect()
}

#[test]
fn from_env() {
    let vars = pairs(&[
        ("DATABASE_URL", "postgres://postgres@localhost/plasma"),
        ("DATABASE_POOL_SIZE", "10"),
    ]);
    let actual = DBConfig::from_env(&vars);
    let expected = DBConfig {
        pool_size: 10,
        url: "postgres://postgres@localhost/plasma".into(),
    };
    assert_eq!(actual, expected);
}

#[test]
fn from_env_first_occurrence_wins() {
    let vars = pairs(&[
        ("DATABASE_POOL_SIZE", "42"),
        ("DATABASE_URL", "postgres://first/db"),
        ("DATABASE_URL", "postgres://second/db"),
        ("DATABASE_POOL_SIZE", "7"),
    ]);
    let actual = DBConfig::from_env(&vars);
    assert_eq!(actual.pool_size, 42);
    assert_eq!(actual.url, "postgres://first/db");
}

#[test]
fn from_env_parses_longer_pool_size() {
    let vars = pairs(&[
        ("OTHER_KEY", "ignored"),
        ("DATABASE_URL", "postgres://localhost/x"),
        ("DATABASE_POOL_SIZE", "12345"),
    ]);
    let actual = DBConfig::from_env(&vars);
    assert_eq!(actual.pool_size, 12345);
}
