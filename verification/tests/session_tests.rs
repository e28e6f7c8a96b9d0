use nano_banana_core::session::CliArgs;
use nano_banana_core::session::ConfigError;
use nano_banana_core::session::DirectoryProbe;
use nano_banana_core::session::EnvSnapshot;
use nano_banana_core::session::OpenRouterConfig;
use nano_banana_core::session::SessionState;
use nano_banana_core::session::TransportType;
use nano_banana_core::session::ValidationError;
use nano_banana_core::session::initial_save_directory;
use nano_banana_core::session::model_is_supported;

const FREE_MODEL: &str = "google/gemini-2.5-flash-image-preview:free";
const PAID_MODEL: &str = "google/gemini-2.5-flash-image-preview";

fn args(v: &[&str]) -> Vec<String> {
    v.iter().map(|s| String::from(*s)).collect()
}

fn empty_env() -> EnvSnapshot {
    EnvSnapshot {
        api_key: None,
        base_url: None,
        http_referer: None,
        x_title: None,
        http_port: None,
        model: None,
        save_directory: None,
    }
}

#[test]
fn default_transport_is_stdio() {
    assert_eq!(TransportType::default(), TransportType::Stdio);
}

#[test]
fn cli_args_carry_plain_options() {
    let a = CliArgs {
        transport: TransportType::Sse,
        api_key: Some(String::from("k")),
        model: None,
        save_directory: Some(String::from("/tmp/images")),
    };
    assert_eq!(a.transport, TransportType::Sse);
    assert_eq!(a.save_directory.as_deref(), Some("/tmp/images"));
}

#[test]
fn model_allow_list_is_closed() {
    assert!(model_is_supported(FREE_MODEL));
    assert!(model_is_supported(PAID_MODEL));
    assert!(!model_is_supported("google/gemini-2.5-pro"));
    assert!(!model_is_supported(""));
}

#[test]
fn api_key_is_taken_from_spaced_flag() {
    let a = args(&["prog", "--api-key", "sk-test"]);
    assert_eq!(OpenRouterConfig::get_api_key_from_args(&a).as_deref(), Some("sk-test"));
}

#[test]
fn api_key_is_taken_from_equals_flag() {
    let a = args(&["prog", "--api-key=sk-eq"]);
    assert_eq!(OpenRouterConfig::get_api_key_from_args(&a).as_deref(), Some("sk-eq"));
}

#[test]
fn api_key_flag_without_value_is_ignored() {
    let a = args(&["prog", "--api-key"]);
    assert_eq!(OpenRouterConfig::get_api_key_from_args(&a), None);
}

#[test]
fn model_flag_is_scanned_the_same_way() {
    let a = args(&["prog", "--model", PAID_MODEL]);
    assert_eq!(OpenRouterConfig::get_model_from_args(&a).as_deref(), Some(PAID_MODEL));
    let b = args(&["prog", "--model=m1"]);
    assert_eq!(OpenRouterConfig::get_model_from_args(&b).as_deref(), Some("m1"));
    let c = args(&["prog"]);
    assert_eq!(OpenRouterConfig::get_model_from_args(&c), None);
}

#[test]
fn config_requires_an_api_key() {
    let r = OpenRouterConfig::from_env(&args(&["prog"]), &empty_env());
    assert_eq!(r.unwrap_err(), ConfigError::MissingApiKey);
}

#[test]
fn config_takes_cli_key_over_environment() {
    let mut env = empty_env();
    env.api_key = Some(String::from("env-key"));
    let c = OpenRouterConfig::from_env(&args(&["prog", "--api-key=cli-key"]), &env).unwrap();
    assert_eq!(c.api_key, "cli-key");
}

#[test]
fn config_falls_back_to_fixed_defaults() {
    let mut env = empty_env();
    env.api_key = Some(String::from("k"));
    let c = OpenRouterConfig::from_env(&args(&["prog"]), &env).unwrap();
    assert_eq!(c.base_url, "https://openrouter.ai/api/v1");
    assert_eq!(c.http_referer, "http://localhost:3000");
    assert_eq!(c.x_title, "OpenRouter MCP Server (Rust)");
    assert_eq!(c.http_port, 6621);
    assert_eq!(c.model, FREE_MODEL);
}

#[test]
fn config_parses_the_port_and_shrugs_off_junk() {
    let mut env = empty_env();
    env.api_key = Some(String::from("k"));
    env.http_port = Some(String::from("8080"));
    let c = OpenRouterConfig::from_env(&args(&["prog"]), &env).unwrap();
    assert_eq!(c.http_port, 8080);
    env.http_port = Some(String::from("not-a-port"));
    let c2 = OpenRouterConfig::from_env(&args(&["prog"]), &env).unwrap();
    assert_eq!(c2.http_port, 6621);
}

#[test]
fn config_rejects_models_outside_the_allow_list() {
    let mut env = empty_env();
    env.api_key = Some(String::from("k"));
    env.model = Some(String::from("other/model"));
    let r = OpenRouterConfig::from_env(&args(&["prog"]), &env);
    assert_eq!(r.unwrap_err(), ConfigError::UnsupportedModel);
}

#[test]
fn initial_save_directory_prefers_cli_then_env_then_default() {
    let cli = String::from("/from/cli");
    let env = String::from("/from/env");
    let d1 = initial_save_directory(Some(&cli), Some(&env), "/cwd").unwrap();
    assert_eq!(d1, "/from/cli");
    let d2 = initial_save_directory(None, Some(&env), "/cwd").unwrap();
    assert_eq!(d2, "/from/env");
    let d3 = initial_save_directory(None, None, "/cwd").unwrap();
    assert_eq!(d3, "/cwd/images");
}

#[test]
fn initial_save_directory_rejects_relative_values() {
    let rel = String::from("relative/path");
    let r = initial_save_directory(Some(&rel), None, "/cwd");
    assert_eq!(r.unwrap_err(), ValidationError::NotAbsolute);
    let r2 = initial_save_directory(None, Some(&rel), "/cwd");
    assert_eq!(r2.unwrap_err(), ValidationError::NotAbsolute);
}

#[test]
fn set_model_commits_allowed_values() {
    let mut s = SessionState::new(String::from(FREE_MODEL), String::from("/tmp/images"));
    assert!(s.set_model(String::from(PAID_MODEL)).is_ok());
    assert_eq!(s.get_model(), PAID_MODEL);
}

#[test]
fn set_model_rejects_and_keeps_prior_value() {
    let mut s = SessionState::new(String::from(FREE_MODEL), String::from("/tmp/images"));
    let r = s.set_model(String::from("unknown/model"));
    assert_eq!(r.unwrap_err(), ValidationError::UnsupportedModel);
    assert_eq!(s.get_model(), FREE_MODEL);
}

#[test]
fn relative_save_directory_is_rejected_and_state_kept() {
    // Scenario: a relative candidate fails with NotAbsolute and the
    // active directory is unchanged.
    let mut s = SessionState::new(String::from(FREE_MODEL), String::from("/tmp/images"));
    let r = s.set_save_directory(String::from("relative/path"), DirectoryProbe::IsDirectory);
    assert_eq!(r.unwrap_err(), ValidationError::NotAbsolute);
    assert_eq!(s.get_save_directory(), "/tmp/images");
}

#[test]
fn save_directory_commits_on_successful_probe() {
    let mut s = SessionState::new(String::from(FREE_MODEL), String::from("/tmp/images"));
    assert!(s.set_save_directory(String::from("/data/pics"), DirectoryProbe::CreatedOk).is_ok());
    assert_eq!(s.get_save_directory(), "/data/pics");
    assert!(s.set_save_directory(String::from("/data/more"), DirectoryProbe::IsDirectory).is_ok());
    assert_eq!(s.get_save_directory(), "/data/more");
}

#[test]
fn save_directory_failures_keep_prior_value() {
    let mut s = SessionState::new(String::from(FREE_MODEL), String::from("/tmp/images"));
    let r = s.set_save_directory(String::from("/data/pics"), DirectoryProbe::CreateFailed);
    assert_eq!(r.unwrap_err(), ValidationError::CreateFailed);
    let r2 = s.set_save_directory(String::from("/data/pics"), DirectoryProbe::NotADirectoryEntry);
    assert_eq!(r2.unwrap_err(), ValidationError::NotADirectory);
    assert_eq!(s.get_save_directory(), "/tmp/images");
}
