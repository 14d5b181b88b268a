use reantenna::env::{parse_env_token, EnvError};
use reantenna::config::{load_config, ConfigError};

#[test]
fn token_plain() {
    let r = parse_env_token("TOKEN=abc123");
    assert_eq!(r, Ok(String::from("abc123")));
}

#[test]
fn token_trailing_newline() {
    let r = parse_env_token("TOKEN=abc123\n");
    assert_eq!(r, Ok(String::from("abc123")));
}

#[test]
fn token_surrounding_whitespace() {
    let r = parse_env_token("  TOKEN=tok-9_x \t\n");
    assert_eq!(r, Ok(String::from("tok-9_x")));
}

#[test]
fn token_unicode_whitespace_trimmed() {
    let r = parse_env_token("\u{b}TOKEN=x");
    assert_eq!(r, Ok(String::from("x")));
    let r = parse_env_token("TOKEN=x\u{b}");
    assert_eq!(r, Ok(String::from("x")));
    let r = parse_env_token("\u{a0}\u{2028}TOKEN=y\u{85}\u{3000}\u{2003}");
    assert_eq!(r, Ok(String::from("y")));
    assert_eq!(parse_env_token("\u{1680}TOKEN=z\u{205f}\u{202f}\u{2029}"), Ok(String::from("z")));
}

#[test]
fn token_whitespace_only_value_fails() {
    let r = parse_env_token("TOKEN=\u{a0}");
    assert_eq!(r, Err(EnvError::InvalidFormat));
}

#[test]
fn token_inner_whitespace_kept() {
    let r = parse_env_token("TOKEN=a\u{a0}b\n");
    assert_eq!(r, Ok(String::from("a\u{a0}b")));
}

#[test]
fn token_missing_prefix() {
    let r = parse_env_token("SECRET=abc123");
    assert_eq!(r, Err(EnvError::InvalidFormat));
}

#[test]
fn token_empty_value() {
    let r = parse_env_token("TOKEN=");
    assert_eq!(r, Err(EnvError::InvalidFormat));
}

#[test]
fn token_empty_file() {
    let r = parse_env_token("");
    assert_eq!(r, Err(EnvError::InvalidFormat));
}

#[test]
fn token_prefix_lowercase_rejected() {
    let r = parse_env_token("token=abc123");
    assert_eq!(r, Err(EnvError::InvalidFormat));
}

#[test]
fn config_id_returned_unmodified() {
    let r = load_config("antenna_id = \"9abcxyz\"\n");
    assert_eq!(r, Ok(String::from("9abcxyz")));
}

#[test]
fn config_other_keys_ignored() {
    let r = load_config("other = 1\nantenna_id = \"aid\"\n");
    assert_eq!(r, Ok(String::from("aid")));
}

#[test]
fn config_missing_field() {
    let r = load_config("other = \"value\"\n");
    assert_eq!(r, Err(ConfigError::Invalid));
}

#[test]
fn config_unparsable() {
    let r = load_config("= not toml =");
    assert_eq!(r, Err(ConfigError::Invalid));
}

#[test]
fn config_wrong_type() {
    let r = load_config("antenna_id = 17\n");
    assert_eq!(r, Err(ConfigError::Invalid));
}

#[test]
fn error_messages() {
    assert_eq!(
        EnvError::InvalidFormat.message(),
        String::from("Invalid .env format: expected 'TOKEN=...'")
    );
    assert_eq!(
        ConfigError::Invalid.message(),
        String::from("invalid config: expected a TOML document with a string 'antenna_id'")
    );
}
