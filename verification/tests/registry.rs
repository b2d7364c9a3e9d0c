use smnview::plugin::{Plugin, PluginManager};
use smnview::plugins::{Builtin, PluginStatics, PluginUI};
use smnview::request::Request;

fn get(path: &str) -> Request {
    Request::from_string(&format!("GET {} HTTP/1.1\n\n", path)).unwrap()
}

#[test]
fn empty_registry_finds_nothing() {
    let manager: PluginManager<PluginUI> = PluginManager::new();
    assert_eq!(manager.len(), 0);
    assert!(manager.find_plugin(&get("/")).is_none());
}

#[test]
fn registered_plugin_is_found_by_what_it_claims() {
    let mut manager = PluginManager::new();
    manager.apply_plugin(PluginStatics::new("statics".to_string())).unwrap();
    assert_eq!(manager.len(), 1);
    assert_eq!(manager.find_plugin(&get("/")).unwrap().path_statics, "statics");
    assert!(manager.find_plugin(&get("/other")).is_none());
    let post = Request::from_string("POST / HTTP/1.1\n\n").unwrap();
    assert!(manager.find_plugin(&post).is_none());
}

#[test]
fn first_registered_plugin_wins() {
    let mut manager = PluginManager::new();
    manager.apply_plugin(PluginStatics::new("first".to_string())).unwrap();
    manager.apply_plugin(PluginStatics::new("second".to_string())).unwrap();
    manager.apply_plugin(PluginStatics::new("third".to_string())).unwrap();
    assert_eq!(manager.len(), 3);
    assert_eq!(manager.find_plugin(&get("/")).unwrap().path_statics, "first");
}

#[test]
fn first_registered_kind_wins() {
    let request = get("/");
    let mut manager = PluginManager::new();
    manager.apply_plugin(Builtin::Ui(PluginUI::new())).unwrap();
    manager.apply_plugin(Builtin::Statics(PluginStatics::new("statics".to_string()))).unwrap();
    assert!(matches!(manager.find_plugin(&request), Some(Builtin::Ui(_))));
    let mut manager = PluginManager::new();
    manager.apply_plugin(Builtin::Statics(PluginStatics::new("statics".to_string()))).unwrap();
    manager.apply_plugin(Builtin::Ui(PluginUI::new())).unwrap();
    assert!(matches!(manager.find_plugin(&request), Some(Builtin::Statics(_))));
}

#[test]
fn plugins_that_come_with_the_server_are_always_registered() {
    let mut manager = PluginManager::new();
    for round in 0..3 {
        assert!(manager.apply_plugin(Builtin::Ui(PluginUI::new())).is_ok());
        let statics = PluginStatics::new(format!("statics-{}", round));
        assert!(manager.apply_plugin(Builtin::Statics(statics)).is_ok());
        assert_eq!(manager.len(), 2 * round + 2);
    }
    let mut manager = PluginManager::new();
    manager.apply_plugin(PluginStatics::new("as given".to_string())).unwrap();
    assert_eq!(manager.find_plugin(&get("/")).unwrap().path_statics, "as given");
}

#[test]
fn failed_init_registers_nothing_and_is_handed_back() {
    let mut manager = PluginManager::new();
    manager.apply_plugin(PluginStatics::new("kept".to_string())).unwrap();
    let failure = std::io::Error::new(std::io::ErrorKind::NotFound, "no such directory");
    let enrolled = manager.enroll(PluginStatics::new("refused".to_string()), Err(failure));
    let error = enrolled.unwrap_err();
    assert_eq!(error.kind(), std::io::ErrorKind::NotFound);
    assert_eq!(error.to_string(), "no such directory");
    assert_eq!(manager.len(), 1);
    assert_eq!(manager.find_plugin(&get("/")).unwrap().path_statics, "kept");
}

#[test]
fn successful_init_registers_behind_the_others() {
    let mut manager = PluginManager::new();
    manager.enroll(PluginStatics::new("a".to_string()), Ok(())).unwrap();
    manager.enroll(PluginStatics::new("b".to_string()), Ok(())).unwrap();
    assert_eq!(manager.len(), 2);
    assert_eq!(manager.find_plugin(&get("/")).unwrap().path_statics, "a");
}

#[test]
fn landing_page_plugin() {
    let mut plugin = PluginUI::new();
    assert!(plugin.init().is_ok());
    let request = get("/");
    assert!(plugin.catch(&request));
    assert!(!plugin.catch(&get("/index.html")));
    assert_eq!(plugin.source(&request), Some("statics/index.html".to_string()));
    assert_eq!(
        plugin.serve(&request, Some(b"<html></html>".to_vec())).to_bytes(),
        b"HTTP/1.1 200 OK\r\nContent-Type: text/html\r\n\r\n<html></html>"
    );
    assert_eq!(
        plugin.serve(&request, Some(Vec::new())).to_bytes(),
        b"HTTP/1.1 200 OK\r\nContent-Type: text/html\r\n\r\n"
    );
    assert_eq!(
        plugin.serve(&request, None).to_bytes(),
        b"HTTP/1.1 404 Not Found\r\nContent-Type: text/plain\r\n\r\nFile not found"
    );
}

#[test]
fn statics_plugin() {
    let mut plugin = PluginStatics::new("assets".to_string());
    assert!(plugin.init().is_ok());
    let request = get("/");
    assert!(plugin.catch(&request));
    assert_eq!(plugin.source(&request), None);
    assert_eq!(
        plugin.serve(&request, None).to_bytes(),
        b"HTTP/1.1 200 OK\r\nContent-Type: text/plain\r\n\r\nPath: /,\nMethod: GET Static: assets"
    );
    assert_eq!(
        plugin.serve(&request, Some(b"ignored".to_vec())).to_bytes(),
        b"HTTP/1.1 200 OK\r\nContent-Type: text/plain\r\n\r\nPath: /,\nMethod: GET Static: assets"
    );
}
