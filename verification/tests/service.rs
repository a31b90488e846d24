use tinysocks::config::{ConfigError, RuntimeOptions};
use tinysocks::service::{
    build_env_file, build_unit, env_file_path, foreground_service_args, install_dir, installed_bin_path,
    installed_exe_path, linux_service_args, quote_arg, quote_env_value, runtime_args, unit_path,
    windows_service_args, ServiceError, DEFAULT_SERVICE_NAME, WINDOWS_SERVICE_NAME,
};

fn sample_options() -> RuntimeOptions {
    RuntimeOptions {
        bind: "0.0.0.0:1080".to_string(),
        max_connections: 2048,
        username: Some("admin".to_string()),
        password: Some("secret".to_string()),
        bypass_ips: vec!["127.0.0.0/8".to_string(), "::1/128".to_string()],
    }
}

#[test]
fn foreground_service_args_include_run_and_runtime_options() {
    let args = foreground_service_args(&sample_options()).expect("should build args");

    assert_eq!(
        args,
        vec![
            "run",
            "0.0.0.0:1080",
            "--max-connections",
            "2048",
            "--username",
            "admin",
            "--password",
            "secret",
            "--bypass-ip",
            "127.0.0.0/8,::1/128",
        ]
    );
}

#[test]
fn windows_service_args_include_run_service_and_runtime_options() {
    let args = windows_service_args(&sample_options()).expect("should build args");

    assert_eq!(
        args,
        vec![
            "--run-service",
            "0.0.0.0:1080",
            "--max-connections",
            "2048",
            "--username",
            "admin",
            "--password",
            "secret",
            "--bypass-ip",
            "127.0.0.0/8,::1/128",
        ]
    );
}

#[test]
fn systemd_unit_uses_installed_binary_and_runtime_options() {
    let unit = build_unit(
        "/usr/local/bin/tinysocks",
        Some("/etc/tinysocks/tinysocks.env"),
        &sample_options(),
    )
    .expect("should build unit");

    assert!(unit.contains("After=network-online.target"));
    assert!(unit.contains("User=nobody"));
    assert!(unit.contains("EnvironmentFile=/etc/tinysocks/tinysocks.env"));
    assert!(unit.contains("Restart=on-failure"));
    assert!(unit.contains("WantedBy=multi-user.target"));
    assert!(unit.contains(
        "ExecStart=/usr/local/bin/tinysocks run 0.0.0.0:1080 --max-connections 2048 --bypass-ip 127.0.0.0/8,::1/128"
    ));
    assert!(!unit.contains("secret"));
}

#[test]
fn quote_arg_quotes_spaces() {
    assert_eq!(quote_arg("/path with space/tinysocks"), "\"/path with space/tinysocks\"");
}

#[test]
fn env_file_contains_quoted_credentials() {
    let mut options = sample_options();
    options.password = Some("quote\"slash\\".to_string());

    let env = build_env_file(&options)
        .expect("should build env file")
        .expect("credentials should produce env file");

    assert_eq!(env, "TINYSOCKS_USERNAME=\"admin\"\nTINYSOCKS_PASSWORD=\"quote\\\"slash\\\\\"\n");
}

#[test]
fn env_file_rejects_newlines() {
    let mut options = sample_options();
    options.password = Some("bad\nsecret".to_string());

    assert!(build_env_file(&options).is_err());
}

// Paths, quoting and the whole unit.

#[test]
fn service_paths() {
    assert_eq!(installed_bin_path(DEFAULT_SERVICE_NAME), "/usr/local/bin/tinysocks");
    assert_eq!(env_file_path(DEFAULT_SERVICE_NAME), "/etc/tinysocks/tinysocks.env");
    assert_eq!(unit_path(DEFAULT_SERVICE_NAME), "/etc/systemd/system/tinysocks.service");
    assert_eq!(installed_bin_path("/opt/x"), "/opt/x");
    assert_eq!(install_dir(None), "C:\\Program Files\\TinySocks");
    assert_eq!(install_dir(Some("D:\\Apps\\")), "D:\\Apps\\TinySocks");
    assert_eq!(
        installed_exe_path(Some("D:\\Apps"), WINDOWS_SERVICE_NAME),
        "D:\\Apps\\TinySocks\\TinySocks.exe"
    );
}

#[test]
fn quoting_escapes() {
    assert_eq!(quote_arg("plain-arg_1.2/x:y@z=w,v"), "plain-arg_1.2/x:y@z=w,v");
    assert_eq!(quote_arg("a\"b\\c\nd\te"), "\"a\\\"b\\\\c\\nd\\te\"");
    assert_eq!(quote_arg(""), "");
    assert_eq!(quote_env_value("a b").unwrap(), "\"a b\"");
    assert_eq!(quote_env_value("x\0y"), Err(ServiceError::InvalidEnvValue));
    assert_eq!(quote_env_value("x\ry"), Err(ServiceError::InvalidEnvValue));
}

#[test]
fn whole_unit_text() {
    let mut options = sample_options();
    options.username = None;
    options.password = None;
    options.bypass_ips = vec!["10.0.0.0/8".to_string()];
    let unit = build_unit("/usr/local/bin/tiny socks", None, &options).unwrap();
    assert_eq!(
        unit,
        "[Unit]\nDescription=SOCKS5/HTTP tinysocks service\nWants=network-online.target\nAfter=network-online.target\n\n[Service]\nType=simple\nUser=nobody\nExecStart=\"/usr/local/bin/tiny socks\" run 0.0.0.0:1080 --max-connections 2048 --bypass-ip 10.0.0.0/8\nRestart=on-failure\nRestartSec=5s\n\n[Install]\nWantedBy=multi-user.target\n"
    );
    assert_eq!(build_env_file(&options), Ok(None));
}

#[test]
fn service_errors() {
    let options = sample_options();
    assert_eq!(build_unit("/bin/x", None, &options), Err(ServiceError::MissingEnvironmentFile));
    let mut bad = sample_options();
    bad.max_connections = 0;
    assert_eq!(runtime_args(&bad), Err(ServiceError::Config(ConfigError::ZeroMaxConnections)));
    assert_eq!(linux_service_args(&bad), Err(ServiceError::Config(ConfigError::ZeroMaxConnections)));
    assert_eq!(
        build_unit("/bin/x", Some("/e"), &bad),
        Err(ServiceError::Config(ConfigError::ZeroMaxConnections))
    );
    assert_eq!(
        linux_service_args(&sample_options()).unwrap(),
        vec!["run", "0.0.0.0:1080", "--max-connections", "2048", "--bypass-ip", "127.0.0.0/8,::1/128"]
    );
    let mut no_bypass = sample_options();
    no_bypass.bypass_ips.clear();
    assert_eq!(
        runtime_args(&no_bypass).unwrap(),
        vec!["0.0.0.0:1080", "--max-connections", "2048", "--username", "admin", "--password", "secret"]
    );
    assert!(ServiceError::InvalidEnvValue.message().contains("NUL"));
}
