use shoplist::config::{Config, Environment};

#[test]
fn dev_is_the_default_environment() {
    let conf = Config::new(None, "127.0.0.1".to_string(), 8080);
    assert!(conf.environment.is_dev());
    assert_eq!(conf.address, "127.0.0.1");
    assert_eq!(conf.port, 8080);
}

#[test]
fn prod_is_not_dev() {
    let conf = Config::new(Some(Environment::Prod), "0.0.0.0".to_string(), 80);
    assert!(!conf.environment.is_dev());
    assert_eq!(Environment::default(), Environment::Dev);
}
