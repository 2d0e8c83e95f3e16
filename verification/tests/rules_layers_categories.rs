use specgate::graph::{DependencyGraph, EdgeKind, GraphEdge};
use specgate::rules::categories::{
    evaluate_enforce_category, parse_enforce_category_config, ENFORCE_CATEGORY_RULE_ID,
};
use specgate::rules::layers::{evaluate_enforce_layer, parse_enforce_layer_config, ENFORCE_LAYER_RULE_ID};
use specgate::spec::types::{Constraint, JsonValue, Severity, SpecFile};

fn text(v: &str) -> JsonValue {
    JsonValue::Str(v.to_string())
}

fn list(items: &[&str]) -> JsonValue {
    JsonValue::Array(items.iter().map(|i| text(i)).collect())
}

fn object(members: Vec<(&str, JsonValue)>) -> JsonValue {
    JsonValue::Object(members.into_iter().map(|(k, v)| (k.to_string(), v)).collect())
}

fn dup(v: &JsonValue) -> JsonValue {
    match v {
        JsonValue::Null => JsonValue::Null,
        JsonValue::Bool(b) => JsonValue::Bool(*b),
        JsonValue::Number(n) => JsonValue::Number(n.clone()),
        JsonValue::Str(t) => JsonValue::Str(t.clone()),
        JsonValue::Array(items) => JsonValue::Array(items.iter().map(dup).collect()),
        JsonValue::Object(members) => JsonValue::Object(members.iter().map(|(k, x)| (k.clone(), dup(x))).collect()),
    }
}

fn spec(module: &str, rule: &str, with_rule: bool, params: JsonValue) -> SpecFile {
    let constraints = if with_rule {
        vec![Constraint { rule: rule.to_string(), params, severity: Severity::Error, message: None }]
    } else {
        Vec::new()
    };
    SpecFile {
        version: "2.2".to_string(),
        module: module.to_string(),
        package: None,
        import_id: None,
        import_ids: Vec::new(),
        description: None,
        boundaries: None,
        constraints,
        spec_path: None,
    }
}

fn graph(files: &[(&str, &str)], edges: &[(&str, &str, &str)]) -> DependencyGraph {
    DependencyGraph {
        edges: edges
            .iter()
            .map(|(f, t, s)| GraphEdge {
                from: f.to_string(),
                to: t.to_string(),
                specifier: s.to_string(),
                kind: EdgeKind::RuntimeImport,
                span_start: None,
                span_end: None,
                line: None,
                column: None,
                ignored_by_comment: false,
            })
            .collect(),
        file_modules: files.iter().map(|(f, m)| (f.to_string(), m.to_string())).collect(),
        file_imports: Vec::new(),
        file_analyses: Vec::new(),
    }
}

#[test]
fn layers_parse_config_rejects_malformed_params() {
    let invalid = [
        JsonValue::Array(Vec::new()),
        object(Vec::new()),
        object(vec![("layers", text("ui"))]),
        object(vec![("layers", list(&[]))]),
        object(vec![("layers", list(&["ui", "ui"]))]),
        object(vec![("layers", JsonValue::Array(vec![text("ui"), JsonValue::Number("1".to_string())]))]),
        object(vec![("layers", list(&[" "]))]),
    ];
    for params in invalid {
        assert!(parse_enforce_layer_config(&params).is_err());
    }
}

#[test]
fn layer_parse_errors_name_the_problem() {
    let err = parse_enforce_layer_config(&object(vec![("layers", list(&["ui", " ui "]))])).unwrap_err();
    assert_eq!(err.message, "params.layers for rule 'enforce-layer' contains duplicate layer 'ui'");
    let err = parse_enforce_layer_config(&text("x")).unwrap_err();
    assert_eq!(err.message, "params for rule 'enforce-layer' must be an object with key 'layers'");
    let ok = parse_enforce_layer_config(&object(vec![("layers", list(&[" ui", "domain "]))])).unwrap();
    assert_eq!(ok.layers, vec!["ui".to_string(), "domain".to_string()]);
}

#[test]
fn allows_same_layer_and_forward_edges() {
    let layers = object(vec![("layers", list(&["ui", "domain"]))]);
    let specs = vec![
        spec("ui/checkout", ENFORCE_LAYER_RULE_ID, true, dup(&layers)),
        spec("domain/orders", ENFORCE_LAYER_RULE_ID, false, layers),
    ];
    let g = graph(
        &[("src/ui/a.ts", "ui/checkout"), ("src/ui/b.ts", "ui/checkout"), ("src/domain/d.ts", "domain/orders")],
        &[("src/ui/a.ts", "src/ui/b.ts", "./b"), ("src/ui/a.ts", "src/domain/d.ts", "../domain/d")],
    );
    let report = evaluate_enforce_layer(&specs, &g);
    assert!(report.config_issues.is_empty());
    assert!(report.violations.is_empty());
    assert!(report.is_clean());
}

#[test]
fn flags_reverse_layer_edges_with_deterministic_message_and_hint() {
    let layers = object(vec![("layers", list(&["ui", "domain"]))]);
    let specs = vec![
        spec("ui/checkout", ENFORCE_LAYER_RULE_ID, true, dup(&layers)),
        spec("domain/orders", ENFORCE_LAYER_RULE_ID, false, layers),
    ];
    let g = graph(
        &[("src/domain/order.ts", "domain/orders"), ("src/ui/button.ts", "ui/checkout")],
        &[("src/domain/order.ts", "src/ui/button.ts", "../ui/button")],
    );
    let report = evaluate_enforce_layer(&specs, &g);
    assert!(report.config_issues.is_empty());
    assert_eq!(report.violations.len(), 1);
    let v = &report.violations[0];
    assert_eq!(v.from_module, "domain/orders");
    assert_eq!(v.to_module, "ui/checkout");
    assert_eq!(v.from_layer, "domain");
    assert_eq!(v.to_layer, "ui");
    assert_eq!(
        v.message,
        "forbidden layer edge: module 'domain/orders' (layer 'domain') imports 'ui/checkout' (layer 'ui') via '../ui/button'"
    );
    assert!(v.fix_hint.starts_with("Re-route this dependency to follow layer order [\"ui\", \"domain\"]: modules may import same layer or a later layer."));
}

#[test]
fn layers_malformed_constraint_params_are_reported_as_config_issues() {
    let specs = vec![spec("core", ENFORCE_LAYER_RULE_ID, true, object(vec![("layers", text("core"))]))];
    let g = graph(&[("src/core/a.ts", "core")], &[]);
    let report = evaluate_enforce_layer(&specs, &g);
    assert!(report.violations.is_empty());
    assert_eq!(report.config_issues.len(), 1);
    assert!(report.config_issues[0].message.contains("params.layers"));
}

#[test]
fn unknown_layer_mappings_are_reported_once_per_module() {
    let layers = object(vec![("layers", list(&["ui", "domain"]))]);
    let specs = vec![
        spec("feature/search", ENFORCE_LAYER_RULE_ID, true, dup(&layers)),
        spec("domain/orders", ENFORCE_LAYER_RULE_ID, false, layers),
    ];
    let g = graph(
        &[("src/feature/f.ts", "feature/search"), ("src/domain/d.ts", "domain/orders")],
        &[("src/feature/f.ts", "src/domain/d.ts", "../domain/d")],
    );
    let report = evaluate_enforce_layer(&specs, &g);
    assert!(report.violations.is_empty());
    assert_eq!(report.config_issues.len(), 1);
    assert_eq!(
        report.config_issues[0].message,
        "module 'feature/search' maps to layer 'feature', which is not listed in params.layers [\"ui\", \"domain\"]"
    );
}

#[test]
fn unknown_layer_is_reported_even_without_cross_module_edges() {
    let layers = object(vec![("layers", list(&["ui", "domain"]))]);
    let specs = vec![
        spec("ui/checkout", ENFORCE_LAYER_RULE_ID, true, dup(&layers)),
        spec("feature/search", ENFORCE_LAYER_RULE_ID, false, layers),
    ];
    let g = graph(&[("src/ui/a.ts", "ui/checkout"), ("src/feature/f.ts", "feature/search")], &[]);
    let report = evaluate_enforce_layer(&specs, &g);
    assert!(report.violations.is_empty());
    assert_eq!(report.config_issues.len(), 1);
    assert_eq!(report.config_issues[0].module, "feature/search");
    assert!(report.config_issues[0].message.contains("which is not listed in params.layers"));
}

#[test]
fn layers_conflicting_configs_are_deterministic_and_explicit() {
    let canonical = object(vec![("layers", list(&["core", "ui"]))]);
    let conflicting = object(vec![("layers", list(&["ui", "domain"]))]);
    let files = [("src/core/order.ts", "core/orders"), ("src/ui/button.ts", "ui/checkout")];
    let specs_left = vec![
        spec("ui/checkout", ENFORCE_LAYER_RULE_ID, true, dup(&conflicting)),
        spec("core/orders", ENFORCE_LAYER_RULE_ID, true, dup(&canonical)),
    ];
    let specs_right = vec![
        spec("core/orders", ENFORCE_LAYER_RULE_ID, true, canonical),
        spec("ui/checkout", ENFORCE_LAYER_RULE_ID, true, conflicting),
    ];
    let left = evaluate_enforce_layer(&specs_left, &graph(&files, &[]));
    let right = evaluate_enforce_layer(&specs_right, &graph(&files, &[]));
    assert_eq!(left, right);
    assert_eq!(left.config_issues.len(), 1);
    let issue = &left.config_issues[0];
    assert_eq!(issue.module, "ui/checkout");
    assert!(issue.message.contains("using canonical layers [\"core\", \"ui\"] from module 'core/orders'"));
    assert!(issue.message.contains("deterministic: lexicographically first module id"));
    assert!(issue.message.ends_with("This module declared layers [\"ui\", \"domain\"]"));
}

#[test]
fn layer_violations_come_out_sorted() {
    let layers = object(vec![("layers", list(&["a", "b"]))]);
    let specs = vec![spec("a/x", ENFORCE_LAYER_RULE_ID, true, layers)];
    let g = graph(
        &[("b2.ts", "b/z"), ("b1.ts", "b/y"), ("a.ts", "a/x")],
        &[("b2.ts", "a.ts", "z"), ("b1.ts", "a.ts", "y")],
    );
    let report = evaluate_enforce_layer(&specs, &g);
    assert_eq!(report.violations.len(), 2);
    assert_eq!(report.violations[0].from_module, "b/y");
    assert_eq!(report.violations[1].from_module, "b/z");
}

#[test]
fn categories_parse_config_rejects_malformed_params() {
    let invalid = [
        JsonValue::Array(Vec::new()),
        object(Vec::new()),
        object(vec![("category", text("domains"))]),
        object(vec![("members", list(&["auth"]))]),
        object(vec![("category", text("domains")), ("members", text("auth"))]),
        object(vec![("category", text("domains")), ("members", list(&[]))]),
        object(vec![("category", text("domains")), ("members", list(&["auth", "auth"]))]),
        object(vec![
            ("category", text("domains")),
            ("members", JsonValue::Array(vec![text("auth"), JsonValue::Number("1".to_string())])),
        ]),
        object(vec![("category", text("domains")), ("members", list(&[" "]))]),
        object(vec![("category", text("")), ("members", list(&["auth"]))]),
        object(vec![("category", JsonValue::Number("42".to_string())), ("members", list(&["auth"]))]),
    ];
    for params in invalid {
        assert!(parse_enforce_category_config(&params).is_err());
    }
}

#[test]
fn parse_config_accepts_valid_params() {
    let params = object(vec![("category", text("domains")), ("members", list(&["auth", "billing", "orders"]))]);
    let config = parse_enforce_category_config(&params).expect("valid config");
    assert_eq!(config.category, "domains");
    assert_eq!(config.members, vec!["auth", "billing", "orders"]);
}

#[test]
fn category_parse_errors_name_the_problem() {
    let err = parse_enforce_category_config(&object(vec![("members", list(&["auth"]))])).unwrap_err();
    assert_eq!(err.message, "params for rule 'enforce-category' must include non-empty 'category' string");
    let err = parse_enforce_category_config(&object(vec![("category", text("d"))])).unwrap_err();
    assert_eq!(err.message, "params for rule 'enforce-category' must include non-empty 'members' array");
    let err = parse_enforce_category_config(&object(vec![("category", text("d")), ("members", list(&["a", " a"]))]))
        .unwrap_err();
    assert_eq!(err.message, "params.members for rule 'enforce-category' contains duplicate member 'a'");
}

#[test]
fn same_category_imports_are_allowed() {
    let params = object(vec![("category", text("domains")), ("members", list(&["auth", "billing"]))]);
    let specs = vec![
        spec("auth/login", ENFORCE_CATEGORY_RULE_ID, true, dup(&params)),
        spec("auth/session", ENFORCE_CATEGORY_RULE_ID, false, params),
    ];
    let g = graph(
        &[("src/auth/login/index.ts", "auth/login"), ("src/auth/session/index.ts", "auth/session")],
        &[("src/auth/login/index.ts", "src/auth/session/index.ts", "../session/index")],
    );
    let report = evaluate_enforce_category(&specs, &g);
    assert!(report.config_issues.is_empty());
    assert!(report.violations.is_empty());
}

#[test]
fn cross_category_imports_are_flagged() {
    let params = object(vec![("category", text("domains")), ("members", list(&["auth", "billing"]))]);
    let specs = vec![
        spec("auth/login", ENFORCE_CATEGORY_RULE_ID, true, dup(&params)),
        spec("billing/invoices", ENFORCE_CATEGORY_RULE_ID, false, params),
    ];
    let g = graph(
        &[("src/auth/login/index.ts", "auth/login"), ("src/billing/invoices/index.ts", "billing/invoices")],
        &[("src/auth/login/index.ts", "src/billing/invoices/index.ts", "../../billing/invoices/index")],
    );
    let report = evaluate_enforce_category(&specs, &g);
    assert!(report.config_issues.is_empty());
    assert_eq!(report.violations.len(), 1);
    let v = &report.violations[0];
    assert_eq!(v.from_module, "auth/login");
    assert_eq!(v.to_module, "billing/invoices");
    assert_eq!(v.from_category, "auth");
    assert_eq!(v.to_category, "billing");
    assert_eq!(
        v.message,
        "forbidden cross-category import: module 'auth/login' (category 'auth') imports 'billing/invoices' (category 'billing') via '../../billing/invoices/index'; category 'domains' isolation policy forbids this"
    );
    assert!(v.fix_hint.starts_with("Modules within category 'domains' members [\"auth\", \"billing\"] must not import across category boundaries."));
}

#[test]
fn imports_to_non_member_modules_are_allowed() {
    let params = object(vec![("category", text("domains")), ("members", list(&["auth", "billing"]))]);
    let specs = vec![
        spec("auth/login", ENFORCE_CATEGORY_RULE_ID, true, dup(&params)),
        spec("shared/utils", ENFORCE_CATEGORY_RULE_ID, false, params),
    ];
    let g = graph(
        &[("src/auth/login/index.ts", "auth/login"), ("src/shared/utils/index.ts", "shared/utils")],
        &[("src/auth/login/index.ts", "src/shared/utils/index.ts", "../../shared/utils/index")],
    );
    let report = evaluate_enforce_category(&specs, &g);
    assert!(report.config_issues.is_empty());
    assert!(report.violations.is_empty());
}

#[test]
fn categories_malformed_constraint_params_are_reported_as_config_issues() {
    let specs = vec![spec(
        "core",
        ENFORCE_CATEGORY_RULE_ID,
        true,
        object(vec![("category", text("domains")), ("members", text("auth"))]),
    )];
    let report = evaluate_enforce_category(&specs, &graph(&[("src/core/a.ts", "core")], &[]));
    assert!(report.violations.is_empty());
    assert_eq!(report.config_issues.len(), 1);
    assert!(report.config_issues[0].message.contains("params.members"));
}

#[test]
fn categories_conflicting_configs_are_deterministic_and_explicit() {
    let canonical = object(vec![("category", text("domains")), ("members", list(&["auth", "billing"]))]);
    let conflicting = object(vec![("category", text("verticals")), ("members", list(&["billing", "orders"]))]);
    let files = [("src/auth/a.ts", "auth/login"), ("src/billing/b.ts", "billing/invoices")];
    let specs_left = vec![
        spec("billing/invoices", ENFORCE_CATEGORY_RULE_ID, true, dup(&conflicting)),
        spec("auth/login", ENFORCE_CATEGORY_RULE_ID, true, dup(&canonical)),
    ];
    let specs_right = vec![
        spec("auth/login", ENFORCE_CATEGORY_RULE_ID, true, canonical),
        spec("billing/invoices", ENFORCE_CATEGORY_RULE_ID, true, conflicting),
    ];
    let left = evaluate_enforce_category(&specs_left, &graph(&files, &[]));
    let right = evaluate_enforce_category(&specs_right, &graph(&files, &[]));
    assert_eq!(left, right);
    assert_eq!(left.config_issues.len(), 1);
    let issue = &left.config_issues[0];
    assert_eq!(issue.module, "billing/invoices");
    assert_eq!(
        issue.message,
        "conflicting enforce-category config; using canonical category 'domains' with members [\"auth\", \"billing\"] from module 'auth/login' (deterministic: lexicographically first module id). This module declared category 'verticals' with members [\"billing\", \"orders\"]"
    );
}
