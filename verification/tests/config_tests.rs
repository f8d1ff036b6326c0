use orb::config::{config_to_services, validate_config, AuthConfig, Config, ConfigError, Service, ServiceConfig};
use orb::keyed::KeyedList;

fn cfg(t: &str, path: Option<&str>) -> ServiceConfig {
    ServiceConfig {
        svc_type: t.to_string(),
        ip: "192.168.1.100".to_string(),
        port: 554,
        path: path.map(|p| p.to_string()),
        auth: None,
    }
}

#[test]
fn services_get_generated_ids_and_default_path() {
    let mut second = cfg("http", None);
    second.auth = Some(AuthConfig {
        auth_type: "basic".to_string(),
        username: "u".to_string(),
        password: "p".to_string(),
    });
    let mut services: Vec<ServiceConfig> = vec![cfg("rtsp", Some("/stream1")), second];
    for i in 0..10 {
        services.push(cfg("cam", Some(&format!("/s{}", i))));
    }
    let out = config_to_services(Config { services });
    assert_eq!(out.len(), 12);
    assert_eq!(out[0].0, "rtsp-1");
    assert_eq!(out[0].1.path, "/stream1");
    assert_eq!(out[1].0, "http-2");
    assert_eq!(out[1].1.path, "/");
    let auth = out[1].1.auth.as_ref().unwrap();
    assert_eq!(auth.username, "u");
    assert_eq!(auth.password, "p");
    assert_eq!(auth.auth_type, "basic");
    assert_eq!(out[11].0, "cam-12");
}

#[test]
fn from_config_copies_fields() {
    let s = Service::from_config(&cfg("rtsp", None));
    assert_eq!(s.svc_type, "rtsp");
    assert_eq!(s.ip, "192.168.1.100");
    assert_eq!(s.port, 554);
    assert_eq!(s.path, "/");
    assert!(s.auth.is_none());
}

#[test]
fn empty_relay_config_is_refused() {
    assert!(matches!(validate_config(Config { services: vec![] }), Err(ConfigError::NoServices)));
    assert!(validate_config(Config { services: vec![cfg("rtsp", None)] }).is_ok());
}

#[test]
fn keyed_list_insert_replace_remove() {
    let mut k: KeyedList<u32> = KeyedList::new();
    assert_eq!(k.len(), 0);
    k.insert("a".to_string(), 1);
    k.insert("b".to_string(), 2);
    k.insert("a".to_string(), 3);
    assert_eq!(k.len(), 2);
    assert_eq!(k.get(&"a".to_string()), Some(&3));
    assert_eq!(k.remove(&"a".to_string()), Some(3));
    assert_eq!(k.remove(&"a".to_string()), None);
    assert!(!k.contains_key(&"a".to_string()));
    assert!(k.contains_key(&"b".to_string()));
    let (key, v) = k.entry(0);
    assert_eq!(key, "b");
    assert_eq!(*v, 2);
}
