use abkve::AppConfig;

#[test]
fn test_default_app_config() {
    let config = AppConfig::default();
    assert_eq!(config.storage_path, "./data");
    assert_eq!(config.api_port, 8080);
    assert_eq!(config.log_level, "info");
    assert_eq!(config.embedding_model, "./models/embedding_model.bin");
}
