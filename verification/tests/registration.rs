use praxis::registration::{
    DuplicateFilter, FilterFactory, FilterRegistry, custom_registry, register_filters,
};

type Create = fn() -> Result<&'static str, String>;
type Registry = FilterRegistry<Create, Create>;
type Entry = (String, FilterFactory<Create, Create>);

fn create_http() -> Result<&'static str, String> {
    Ok("dummy_http")
}

fn create_tcp() -> Result<&'static str, String> {
    Ok("dummy_tcp")
}

fn http(name: &str) -> Entry {
    (name.to_owned(), FilterFactory::Http(create_http))
}

fn tcp(name: &str) -> Entry {
    (name.to_owned(), FilterFactory::Tcp(create_tcp))
}

fn with_builtins() -> Registry {
    let mut registry = Registry::new();
    register_filters(&mut registry, vec![http("router"), http("load_balancer"), tcp("tcp_proxy")])
        .unwrap();
    registry
}

fn custom() -> Registry {
    custom_registry(with_builtins(), vec![http("dummy_http"), tcp("dummy_tcp")]).unwrap()
}

fn exported() -> Registry {
    let mut registry = with_builtins();
    register_filters(&mut registry, vec![http("exported_http"), tcp("exported_tcp")]).unwrap();
    registry
}

fn create(registry: &Registry, name: &str) -> Result<&'static str, String> {
    match registry.factory(name) {
        Some(FilterFactory::Http(factory)) => factory(),
        Some(FilterFactory::Tcp(factory)) => factory(),
        None => Err("unknown filter".to_owned()),
    }
}

#[test]
fn macro_registers_http_filter() {
    let registry = custom();
    assert!(
        registry.available_filters().contains(&"dummy_http"),
        "registry should contain custom HTTP filter"
    );
}

#[test]
fn macro_registers_tcp_filter() {
    let registry = custom();
    assert!(
        registry.available_filters().contains(&"dummy_tcp"),
        "registry should contain custom TCP filter"
    );
}

#[test]
fn macro_registers_http_filter_with_name_expression() {
    let mut registry = with_builtins();
    let name = String::from("dummy_http_expr");
    registry.register(name.as_str(), FilterFactory::Http(create_http)).unwrap();
    assert!(
        registry.available_filters().contains(&"dummy_http_expr"),
        "registry should contain custom HTTP filter registered with a name expression"
    );
}

#[test]
fn macro_registers_tcp_filter_with_name_expression() {
    let mut registry = with_builtins();
    let name = String::from("dummy_tcp_expr");
    registry.register(name.as_str(), FilterFactory::Tcp(create_tcp)).unwrap();
    assert!(
        registry.available_filters().contains(&"dummy_tcp_expr"),
        "registry should contain custom TCP filter registered with a name expression"
    );
}

#[test]
fn macro_preserves_builtins() {
    let registry = custom();
    assert!(
        registry.available_filters().contains(&"router"),
        "registry should still contain built-in router"
    );
    assert!(
        registry.available_filters().contains(&"load_balancer"),
        "registry should still contain built-in load_balancer"
    );
}

#[test]
fn macro_registered_http_filter_creates_successfully() {
    let registry = custom();
    let result = create(&registry, "dummy_http");
    assert!(result.is_ok(), "custom HTTP filter should instantiate without error");
}

#[test]
fn macro_registered_tcp_filter_creates_successfully() {
    let registry = custom();
    let result = create(&registry, "dummy_tcp");
    assert!(result.is_ok(), "custom TCP filter should instantiate without error");
}

#[test]
#[should_panic(expected = "duplicate filter name: 'router'")]
fn macro_panics_on_builtin_collision() {
    let mut registry = with_builtins();
    if let Err(error) = registry.register("router", FilterFactory::Http(create_http)) {
        panic!("{}", error.to_string());
    }
}

#[test]
fn export_filters_registers_http() {
    let registry = exported();
    assert!(
        registry.available_filters().contains(&"exported_http"),
        "exported HTTP filter should be registered"
    );
}

#[test]
fn export_filters_registers_tcp() {
    let registry = exported();
    assert!(
        registry.available_filters().contains(&"exported_tcp"),
        "exported TCP filter should be registered"
    );
}

#[test]
fn export_filters_preserves_builtins() {
    let registry = exported();
    assert!(
        registry.available_filters().contains(&"router"),
        "built-in router should still be registered"
    );
}

#[test]
fn export_filters_creates_http_filter_successfully() {
    let result = create(&exported(), "exported_http");
    assert!(result.is_ok(), "exported HTTP filter should instantiate without error");
}

#[test]
fn export_filters_creates_tcp_filter_successfully() {
    let result = create(&exported(), "exported_tcp");
    assert!(result.is_ok(), "exported TCP filter should instantiate without error");
}

#[test]
#[should_panic(expected = "duplicate filter name: 'router'")]
fn export_filters_panics_on_builtin_collision() {
    let mut registry = with_builtins();
    if let Err(error) = register_filters(&mut registry, vec![http("router")]) {
        panic!("{}", error.to_string());
    }
}

#[test]
fn a_refused_registration_changes_nothing() {
    let mut registry = with_builtins();
    let error = registry.register("router", FilterFactory::Tcp(create_tcp)).unwrap_err();
    assert_eq!(error.name, "router");
    assert_eq!(registry.available_filters(), vec!["router", "load_balancer", "tcp_proxy"]);
    assert!(matches!(registry.factory("router"), Some(FilterFactory::Http(_))));
}

#[test]
fn registration_stops_at_the_first_clash() {
    let mut registry = with_builtins();
    let additions = vec![http("a"), http("b"), tcp("a"), http("c")];
    let error = register_filters(&mut registry, additions).unwrap_err();
    assert_eq!(error.name, "a");
    assert_eq!(
        registry.available_filters(),
        vec!["router", "load_balancer", "tcp_proxy", "a", "b"]
    );
    assert!(matches!(registry.factory("a"), Some(FilterFactory::Http(_))));
    assert!(registry.factory("c").is_none());
}

#[test]
fn a_custom_registry_needs_free_names() {
    let error = custom_registry(with_builtins(), vec![http("x"), tcp("tcp_proxy")]).err().unwrap();
    assert_eq!(error.name, "tcp_proxy");
}

#[test]
fn an_empty_registry_has_no_filters() {
    let registry = Registry::new();
    assert!(registry.available_filters().is_empty());
    assert!(registry.factory("router").is_none());
}

#[test]
fn duplicate_message_names_the_filter() {
    let error = DuplicateFilter { name: "router".to_owned() };
    assert_eq!(error.to_string(), "duplicate filter name: 'router'");
}
