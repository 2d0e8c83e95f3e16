use specgate::rules::envelope::{
    analyze_envelope, filter_calls_by_span, find_exported_function_span_in_statements, BindingName, EnvelopeAnalysis,
    ImportBinding, ScriptNode,
};

const ENVELOPE: &str = "specgate-envelope";

fn id(name: &str) -> ScriptNode {
    ScriptNode::Identifier(name.to_string())
}

fn lit(value: &str) -> ScriptNode {
    ScriptNode::StringLiteral(value.to_string())
}

fn member(object: ScriptNode, property: &str) -> ScriptNode {
    ScriptNode::Member { object: Box::new(object), property: Some(property.to_string()), computed: None }
}

fn span_of(source: &str, text: &str) -> (u32, u32) {
    let start = source.find(text).expect("text in source");
    (start as u32, (start + text.len()) as u32)
}

fn block_span(source: &str, from: &str) -> (u32, u32) {
    let base = source.find(from).expect("anchor in source");
    let start = base + source[base..].find('{').expect("missing '{'");
    let mut depth = 0;
    for (offset, ch) in source[start..].char_indices() {
        if ch == '{' {
            depth += 1;
        } else if ch == '}' {
            depth -= 1;
            if depth == 0 {
                return (start as u32, (start + offset + 1) as u32);
            }
        }
    }
    panic!("unbalanced braces")
}

/// A call whose source text is `text`.
fn call(source: &str, text: &str, callee: ScriptNode, arguments: Vec<ScriptNode>) -> ScriptNode {
    let (span_start, span_end) = span_of(source, text);
    ScriptNode::Call { callee: Box::new(callee), arguments, span_start, span_end }
}

fn stmt(expression: ScriptNode) -> ScriptNode {
    ScriptNode::Other(vec![expression])
}

fn import_from(source: &str, names: &[&str], type_only: bool) -> ScriptNode {
    ScriptNode::Import {
        source: source.to_string(),
        type_only,
        bindings: names.iter().map(|n| ImportBinding { local: n.to_string(), namespace: false }).collect(),
    }
}

fn import(names: &[&str]) -> ScriptNode {
    import_from(ENVELOPE, names, false)
}

/// `boundary.validate('<id>', data)` as written in `source`.
fn validate_call(source: &str, object: &str, contract: &str) -> ScriptNode {
    let text = format!("{object}.validate('{contract}', data)");
    call(source, &text, member(id(object), "validate"), vec![lit(contract), id("data")])
}

fn function(name: Option<&str>, arrow: bool, body: Vec<ScriptNode>, body_span: (u32, u32)) -> ScriptNode {
    ScriptNode::Function { name: name.map(|n| n.to_string()), arrow, body, body_span: Some(body_span) }
}

fn run_with(program: &[ScriptNode], source: &str, patterns: &[&str], function_pattern: &str) -> EnvelopeAnalysis {
    let patterns: Vec<String> = patterns.iter().map(|p| p.to_string()).collect();
    let program: Vec<ScriptNode> = program.iter().map(copy_node).collect();
    analyze_envelope(&program, source, &patterns, function_pattern, None)
}

fn copy_binding(b: &BindingName) -> BindingName {
    match b {
        BindingName::Ident(n) => BindingName::Ident(n.clone()),
        BindingName::Defaulted(x) => BindingName::Defaulted(Box::new(copy_binding(x))),
        BindingName::Destructured => BindingName::Destructured,
    }
}

fn copy_node(n: &ScriptNode) -> ScriptNode {
    let many = |v: &Vec<ScriptNode>| v.iter().map(copy_node).collect::<Vec<_>>();
    let boxed = |b: &Box<ScriptNode>| Box::new(copy_node(b));
    match n {
        ScriptNode::Call { callee, arguments, span_start, span_end } => ScriptNode::Call {
            callee: boxed(callee),
            arguments: many(arguments),
            span_start: *span_start,
            span_end: *span_end,
        },
        ScriptNode::Member { object, property, computed } => ScriptNode::Member {
            object: boxed(object),
            property: property.clone(),
            computed: computed.as_ref().map(boxed),
        },
        ScriptNode::Identifier(s) => ScriptNode::Identifier(s.clone()),
        ScriptNode::StringLiteral(s) => ScriptNode::StringLiteral(s.clone()),
        ScriptNode::Template { quasis, expressions } => {
            ScriptNode::Template { quasis: quasis.clone(), expressions: many(expressions) }
        },
        ScriptNode::Wrapped(x) => ScriptNode::Wrapped(boxed(x)),
        ScriptNode::Chain(x) => ScriptNode::Chain(boxed(x)),
        ScriptNode::Spread(x) => ScriptNode::Spread(boxed(x)),
        ScriptNode::Function { name, arrow, body, body_span } => {
            ScriptNode::Function { name: name.clone(), arrow: *arrow, body: many(body), body_span: *body_span }
        },
        ScriptNode::Class { super_class, members } => {
            ScriptNode::Class { super_class: super_class.as_ref().map(boxed), members: many(members) }
        },
        ScriptNode::Method { key, value } => ScriptNode::Method { key: key.clone(), value: boxed(value) },
        ScriptNode::Variables(ds) => ScriptNode::Variables(many(ds)),
        ScriptNode::Declarator { binding, init } => {
            ScriptNode::Declarator { binding: copy_binding(binding), init: init.as_ref().map(boxed) }
        },
        ScriptNode::Import { source, type_only, bindings } => ScriptNode::Import {
            source: source.clone(),
            type_only: *type_only,
            bindings: bindings.iter().map(|b| ImportBinding { local: b.local.clone(), namespace: b.namespace }).collect(),
        },
        ScriptNode::ExportNamed { declaration, has_source, locals } => ScriptNode::ExportNamed {
            declaration: declaration.as_ref().map(boxed),
            has_source: *has_source,
            locals: locals.clone(),
        },
        ScriptNode::ExportDefault { declaration, is_expression } => {
            ScriptNode::ExportDefault { declaration: boxed(declaration), is_expression: *is_expression }
        },
        ScriptNode::Other(children) => ScriptNode::Other(many(children)),
    }
}

fn run(program: &[ScriptNode], source: &str) -> EnvelopeAnalysis {
    run_with(program, source, &[ENVELOPE], "boundary.validate")
}

#[test]
fn detects_standard_esm_import_and_call() {
    let source = "import { boundary } from 'specgate-envelope';\nboundary.validate('create_user', data);\n";
    let program = [import(&["boundary"]), stmt(validate_call(source, "boundary", "create_user"))];
    let analysis = run(&program, source);
    assert!(analysis.has_envelope_import);
    assert_eq!(analysis.import_bindings, vec!["boundary".to_string()]);
    assert!(!analysis.is_type_only_import);
    assert_eq!(analysis.calls.len(), 1);
    assert_eq!(analysis.calls[0].contract_id, "create_user");
    assert_eq!(analysis.calls[0].line, 2);
    assert_eq!(analysis.calls[0].column, 0);
}

#[test]
fn detects_destructured_validate_binding() {
    let source = "import { validate } from 'specgate-envelope';\nvalidate('create_user', data);\n";
    let program = [
        import(&["validate"]),
        stmt(call(source, "validate('create_user', data)", id("validate"), vec![lit("create_user"), id("data")])),
    ];
    let analysis = run_with(&program, source, &[ENVELOPE], "validate");
    assert!(analysis.has_envelope_import);
    assert_eq!(analysis.import_bindings, vec!["validate".to_string()]);
    assert_eq!(analysis.calls.len(), 1);
    assert_eq!(analysis.calls[0].contract_id, "create_user");
}

#[test]
fn detects_renamed_import_binding() {
    let source = "import { boundary as b } from 'specgate-envelope';\nb.validate('create_user', data);\n";
    let program = [import(&["b"]), stmt(validate_call(source, "b", "create_user"))];
    let analysis = run(&program, source);
    assert!(analysis.has_envelope_import);
    assert_eq!(analysis.import_bindings, vec!["b".to_string()]);
    assert_eq!(analysis.calls.len(), 1);
    assert_eq!(analysis.calls[0].contract_id, "create_user");
}

#[test]
fn detects_require_based_import() {
    let source = "require('specgate-envelope');\nboundary.validate('id', data);\n";
    let program = [
        stmt(call(source, "require('specgate-envelope')", id("require"), vec![lit(ENVELOPE)])),
        stmt(validate_call(source, "boundary", "id")),
    ];
    let analysis = run(&program, source);
    assert!(analysis.has_envelope_import);
    assert!(analysis.import_bindings.is_empty());
    assert_eq!(analysis.calls.len(), 1);
    assert_eq!(analysis.calls[0].contract_id, "id");
}

#[test]
fn mixed_type_only_and_runtime_import_is_treated_as_runtime_import() {
    let source = "import type { BoundaryType } from 'specgate-envelope';\nimport { boundary } from 'specgate-envelope';\nboundary.validate('create_user', data);\n";
    let program = [
        import_from(ENVELOPE, &["BoundaryType"], true),
        import(&["boundary"]),
        stmt(validate_call(source, "boundary", "create_user")),
    ];
    let analysis = run(&program, source);
    assert!(analysis.has_envelope_import);
    assert!(!analysis.is_type_only_import);
    assert_eq!(analysis.calls.len(), 1);
    assert_eq!(analysis.calls[0].contract_id, "create_user");
}

#[test]
fn marks_type_only_import_and_ignores_for_runtime() {
    let source = "import type { boundary } from 'specgate-envelope';\nboundary.validate('create_user', data);\n";
    let program = [import_from(ENVELOPE, &["boundary"], true), stmt(validate_call(source, "boundary", "create_user"))];
    let analysis = run(&program, source);
    assert!(!analysis.has_envelope_import);
    assert!(analysis.is_type_only_import);
    assert!(analysis.calls.is_empty());
}

fn namespace_program(source: &str) -> Vec<ScriptNode> {
    let callee = member(member(id("env"), "boundary"), "validate");
    vec![
        ScriptNode::Import {
            source: ENVELOPE.to_string(),
            type_only: false,
            bindings: vec![ImportBinding { local: "env".to_string(), namespace: true }],
        },
        stmt(call(source, "env.boundary.validate('create_user', data)", callee, vec![lit("create_user"), id("data")])),
    ]
}

#[test]
fn marks_namespace_import_as_runtime_envelope_import() {
    let source = "import * as env from 'specgate-envelope';\nenv.boundary.validate('create_user', data);\n";
    let analysis = run(&namespace_program(source), source);
    assert!(analysis.has_envelope_import);
    assert!(!analysis.is_type_only_import);
}

#[test]
fn detects_namespace_member_call_for_default_boundary_pattern() {
    let source = "import * as env from 'specgate-envelope';\nenv.boundary.validate('create_user', data);\n";
    let analysis = run(&namespace_program(source), source);
    assert_eq!(analysis.calls.len(), 1);
    assert_eq!(analysis.calls[0].contract_id, "create_user");
    assert!(analysis.import_bindings.is_empty());
}

#[test]
fn side_effect_import_does_not_create_bindings() {
    let source = "import 'specgate-envelope';\nboundary.validate('create_user', data);\n";
    let program = [import(&[]), stmt(validate_call(source, "boundary", "create_user"))];
    let analysis = run(&program, source);
    assert!(!analysis.has_envelope_import);
    assert!(analysis.import_bindings.is_empty());
    assert!(analysis.calls.is_empty());
}

#[test]
fn detects_static_template_literal_contract_id() {
    let source = "import { boundary } from 'specgate-envelope';\nboundary.validate(`create_user`, data);\n";
    let template = ScriptNode::Template { quasis: vec!["create_user".to_string()], expressions: Vec::new() };
    let program = [
        import(&["boundary"]),
        stmt(call(source, "boundary.validate(`create_user`, data)", member(id("boundary"), "validate"), vec![
            template,
            id("data"),
        ])),
    ];
    let analysis = run(&program, source);
    assert_eq!(analysis.calls.len(), 1);
    assert_eq!(analysis.calls[0].contract_id, "create_user");
}

#[test]
fn unwraps_ts_as_expression_for_contract_id() {
    let source = "import { boundary } from 'specgate-envelope';\nboundary.validate('create_user' as const, data);\n";
    let program = [
        import(&["boundary"]),
        stmt(call(source, "boundary.validate('create_user' as const, data)", member(id("boundary"), "validate"), vec![
            ScriptNode::Wrapped(Box::new(lit("create_user"))),
            id("data"),
        ])),
    ];
    let analysis = run(&program, source);
    assert_eq!(analysis.calls.len(), 1);
    assert_eq!(analysis.calls[0].contract_id, "create_user");
}

#[test]
fn detects_optional_chaining_call() {
    let source = "import { boundary } from 'specgate-envelope';\nboundary?.validate('create_user', data);\n";
    let inner = call(source, "boundary?.validate('create_user', data)", member(id("boundary"), "validate"), vec![
        lit("create_user"),
        id("data"),
    ]);
    let program = [import(&["boundary"]), stmt(ScriptNode::Chain(Box::new(inner)))];
    let analysis = run(&program, source);
    assert_eq!(analysis.calls.len(), 1);
    assert_eq!(analysis.calls[0].contract_id, "create_user");
}

#[test]
fn ignores_calls_without_contract_argument() {
    let source = "import { boundary } from 'specgate-envelope';\nboundary.validate();\n";
    let program = [import(&["boundary"]), stmt(call(source, "boundary.validate()", member(id("boundary"), "validate"), vec![]))];
    let analysis = run(&program, source);
    assert!(analysis.calls.is_empty());
}

#[test]
fn ignores_wrong_function_name() {
    let source = "import { boundary } from 'specgate-envelope';\nboundary.schema('create_user', data);\n";
    let program = [
        import(&["boundary"]),
        stmt(call(source, "boundary.schema('create_user', data)", member(id("boundary"), "schema"), vec![
            lit("create_user"),
            id("data"),
        ])),
    ];
    let analysis = run(&program, source);
    assert!(analysis.calls.is_empty());
}

#[test]
fn ignores_variable_contract_id() {
    let source = "import { boundary } from 'specgate-envelope';\nconst id = 'create_user';\nboundary.validate(id, data);\n";
    let program = [
        import(&["boundary"]),
        ScriptNode::Variables(vec![ScriptNode::Declarator {
            binding: BindingName::Ident("id".to_string()),
            init: Some(Box::new(lit("create_user"))),
        }]),
        stmt(call(source, "boundary.validate(id, data)", member(id("boundary"), "validate"), vec![id("id"), id("data")])),
    ];
    let analysis = run(&program, source);
    assert!(analysis.calls.is_empty());
}

#[test]
fn reports_no_import_when_not_present() {
    let source = "boundary.validate('create_user', data);\n";
    let program = [stmt(validate_call(source, "boundary", "create_user"))];
    let analysis = run(&program, source);
    assert!(!analysis.has_envelope_import);
    assert!(analysis.import_bindings.is_empty());
    assert!(analysis.calls.is_empty());
}

#[test]
fn detects_multiple_calls() {
    let source = "import { boundary } from 'specgate-envelope';\nboundary.validate('create_user', data);\nboundary.validate('delete_user', data);\n";
    let program = [
        import(&["boundary"]),
        stmt(validate_call(source, "boundary", "create_user")),
        stmt(validate_call(source, "boundary", "delete_user")),
    ];
    let analysis = run(&program, source);
    assert_eq!(analysis.calls.len(), 2);
    assert_eq!(analysis.calls[0].contract_id, "create_user");
    assert_eq!(analysis.calls[1].contract_id, "delete_user");
    assert_eq!(analysis.calls[1].line, 3);
}

#[test]
fn supports_custom_import_pattern() {
    let source = "import { validate } from '@myorg/validation';\nvalidate('id', data);\n";
    let program = [
        import_from("@myorg/validation", &["validate"], false),
        stmt(call(source, "validate('id', data)", id("validate"), vec![lit("id"), id("data")])),
    ];
    let analysis = run_with(&program, source, &["@myorg/validation"], "validate");
    assert!(analysis.has_envelope_import);
    assert_eq!(analysis.import_bindings, vec!["validate".to_string()]);
    assert_eq!(analysis.calls.len(), 1);
    assert_eq!(analysis.calls[0].contract_id, "id");
}

fn exported_function(source: &str, name: &str, is_async: bool, body: Vec<ScriptNode>) -> ScriptNode {
    let anchor = if is_async { format!("async function {name}") } else { format!("function {name}") };
    let f = function(Some(name), false, body, block_span(source, &anchor));
    ScriptNode::ExportNamed { declaration: Some(Box::new(f)), has_source: false, locals: Vec::new() }
}

fn exported_const(name: &str, init: ScriptNode) -> ScriptNode {
    let declarator =
        ScriptNode::Declarator { binding: BindingName::Ident(name.to_string()), init: Some(Box::new(init)) };
    ScriptNode::ExportNamed {
        declaration: Some(Box::new(ScriptNode::Variables(vec![declarator]))),
        has_source: false,
        locals: Vec::new(),
    }
}

#[test]
fn finds_exported_function_span_for_exported_function() {
    let source = "export function createUser() {\n  return 1;\n}\n";
    let program = vec![exported_function(source, "createUser", false, Vec::new())];
    assert_eq!(find_exported_function_span_in_statements(&program, "createUser"), Some(block_span(source, "function")));
}

#[test]
fn finds_exported_function_span_for_async_exported_function() {
    let source = "export async function createUser() {\n  return 1;\n}\n";
    let program = vec![exported_function(source, "createUser", true, Vec::new())];
    assert_eq!(find_exported_function_span_in_statements(&program, "createUser"), Some(block_span(source, "async")));
}

#[test]
fn finds_exported_function_span_for_arrow_exported_const() {
    let source = "export const createUser = () => {\n  return 1;\n};\n";
    let program = vec![exported_const("createUser", function(None, true, Vec::new(), block_span(source, "=>")))];
    assert_eq!(find_exported_function_span_in_statements(&program, "createUser"), Some(block_span(source, "=>")));
}

#[test]
fn finds_exported_function_span_for_export_default_function() {
    let source = "export default function createUser() {\n  return 1;\n}\n";
    let f = function(Some("createUser"), false, Vec::new(), block_span(source, "function"));
    let program = vec![ScriptNode::ExportDefault { declaration: Box::new(f), is_expression: false }];
    assert_eq!(find_exported_function_span_in_statements(&program, "createUser"), Some(block_span(source, "function")));
}

#[test]
fn finds_exported_function_span_returns_none_when_not_found() {
    let source = "export function createUser() {\n  return 1;\n}\n";
    let program = vec![exported_function(source, "createUser", false, Vec::new())];
    assert_eq!(find_exported_function_span_in_statements(&program, "deleteUser"), None);
}

#[test]
fn finds_exported_function_span_only_matches_exported_functions() {
    let source = "function createUser() {\n  return 1;\n}\n";
    let program = vec![function(Some("createUser"), false, Vec::new(), block_span(source, "function"))];
    assert_eq!(find_exported_function_span_in_statements(&program, "createUser"), None);
}

#[test]
fn finds_exported_function_span_for_hoc_wrapper_export() {
    let source = "import { boundary } from 'specgate-envelope';\n\nexport const createUser = withAuth(() => {\n  boundary.validate('create_user', data);\n});\n";
    let arrow = function(None, true, vec![stmt(validate_call(source, "boundary", "create_user"))], block_span(source, "=>"));
    let wrapper = call(source, "withAuth(() => {\n  boundary.validate('create_user', data);\n})", id("withAuth"), vec![arrow]);
    let program = vec![import(&["boundary"]), exported_const("createUser", wrapper)];
    let analysis = run(&program, source);
    let span = find_exported_function_span_in_statements(&program, "createUser").expect("createUser span");
    let calls = filter_calls_by_span(&analysis.calls, span.0, span.1);
    assert_eq!(calls.len(), 1);
    assert_eq!(calls[0].contract_id, "create_user");
}

#[test]
fn finds_exported_function_span_for_indirect_export() {
    let source = "import { boundary } from 'specgate-envelope';\n\nconst handler = () => {\n  boundary.validate('id', data);\n};\n\nexport { handler };\n";
    let arrow = function(None, true, vec![stmt(validate_call(source, "boundary", "id"))], block_span(source, "=>"));
    let program = vec![
        import(&["boundary"]),
        ScriptNode::Variables(vec![ScriptNode::Declarator {
            binding: BindingName::Ident("handler".to_string()),
            init: Some(Box::new(arrow)),
        }]),
        ScriptNode::ExportNamed { declaration: None, has_source: false, locals: vec!["handler".to_string()] },
    ];
    let analysis = run(&program, source);
    let span = find_exported_function_span_in_statements(&program, "handler").expect("handler span");
    let calls = filter_calls_by_span(&analysis.calls, span.0, span.1);
    assert_eq!(calls.len(), 1);
    assert_eq!(calls[0].contract_id, "id");
}

#[test]
fn finds_exported_function_span_for_exported_class_method() {
    let source = "import { boundary } from 'specgate-envelope';\n\nexport class UserService {\n  createUser() {\n    boundary.validate('id', data);\n  }\n}\n";
    let method_fn = function(None, false, vec![stmt(validate_call(source, "boundary", "id"))], block_span(source, "createUser()"));
    let class = ScriptNode::Class {
        super_class: None,
        members: vec![ScriptNode::Method { key: Some("createUser".to_string()), value: Box::new(method_fn) }],
    };
    let program = vec![
        import(&["boundary"]),
        ScriptNode::ExportNamed { declaration: Some(Box::new(class)), has_source: false, locals: Vec::new() },
    ];
    let analysis = run(&program, source);
    let span = find_exported_function_span_in_statements(&program, "createUser").expect("createUser span");
    let calls = filter_calls_by_span(&analysis.calls, span.0, span.1);
    assert_eq!(calls.len(), 1);
    assert_eq!(calls[0].contract_id, "id");
}

fn two_functions_program(source: &str) -> Vec<ScriptNode> {
    let log = call(source, "console.log('noop')", member(id("console"), "log"), vec![lit("noop")]);
    vec![
        import(&["boundary"]),
        exported_function(source, "createUser", false, vec![stmt(validate_call(source, "boundary", "create_user"))]),
        exported_function(source, "deleteUser", false, vec![stmt(log)]),
    ]
}

#[test]
fn finds_scoped_envelope_call_for_matching_exported_function() {
    let source = "import { boundary } from 'specgate-envelope';\n\nexport function createUser() {\n  boundary.validate('create_user', data);\n}\n\nexport function deleteUser() {\n  console.log('noop');\n}\n";
    let program = two_functions_program(source);
    let analysis = run(&program, source);
    let create_span = find_exported_function_span_in_statements(&program, "createUser").expect("createUser span");
    let create_calls = filter_calls_by_span(&analysis.calls, create_span.0, create_span.1);
    assert_eq!(create_calls.len(), 1);
    assert_eq!(create_calls[0].contract_id, "create_user");
    let delete_span = find_exported_function_span_in_statements(&program, "deleteUser").expect("deleteUser span");
    let delete_calls = filter_calls_by_span(&analysis.calls, delete_span.0, delete_span.1);
    assert!(delete_calls.is_empty());
}

#[test]
fn hoc_wrapper_span_filters_out_calls_outside_wrapper() {
    let source = "import { boundary } from 'specgate-envelope';\n\nexport const deleteUser = withAuth(() => {\n  console.log('noop');\n});\n\nboundary.validate('outside', data);\n";
    let log = call(source, "console.log('noop')", member(id("console"), "log"), vec![lit("noop")]);
    let arrow = function(None, true, vec![stmt(log)], block_span(source, "=>"));
    let wrapper = call(source, "withAuth(() => {\n  console.log('noop');\n})", id("withAuth"), vec![arrow]);
    let program = vec![
        import(&["boundary"]),
        exported_const("deleteUser", wrapper),
        stmt(validate_call(source, "boundary", "outside")),
    ];
    let analysis = run(&program, source);
    let span = find_exported_function_span_in_statements(&program, "deleteUser").expect("deleteUser span");
    let calls = filter_calls_by_span(&analysis.calls, span.0, span.1);
    assert!(calls.is_empty());
    assert_eq!(analysis.calls.len(), 1);
    assert_eq!(analysis.calls[0].contract_id, "outside");
}

#[test]
fn analyze_file_for_envelope_scopes_calls_when_match_pattern_is_set() {
    let source = "import { boundary } from 'specgate-envelope';\n\nexport function createUser() {\n  return data;\n}\n\nexport function other() {\n  boundary.validate('create_user', data);\n}\n";
    let program = vec![
        import(&["boundary"]),
        exported_function(source, "createUser", false, vec![stmt(id("data"))]),
        exported_function(source, "other", false, vec![stmt(validate_call(source, "boundary", "create_user"))]),
    ];
    let patterns = vec![ENVELOPE.to_string()];
    let scoped_create = analyze_envelope(&program, source, &patterns, "boundary.validate", Some("createUser"));
    assert!(scoped_create.calls.is_empty());
    let scoped_other = analyze_envelope(&program, source, &patterns, "boundary.validate", Some("other"));
    assert_eq!(scoped_other.calls.len(), 1);
    assert_eq!(scoped_other.calls[0].contract_id, "create_user");
    let none = analyze_envelope(&program, source, &patterns, "boundary.validate", Some("missing"));
    assert!(none.calls.is_empty());
}

#[test]
fn calls_report_line_and_byte_column() {
    let source = "import { boundary } from 'specgate-envelope';\nconst é = 1; boundary.validate('x', data);\n";
    let program = [import(&["boundary"]), stmt(validate_call(source, "boundary", "x"))];
    let analysis = run(&program, source);
    assert_eq!(analysis.calls.len(), 1);
    assert_eq!(analysis.calls[0].line, 2);
    assert_eq!(analysis.calls[0].column, 14);
}

#[test]
fn blank_function_pattern_matches_nothing() {
    let source = "import { boundary } from 'specgate-envelope';\nboundary.validate('create_user', data);\n";
    let program = [import(&["boundary"]), stmt(validate_call(source, "boundary", "create_user"))];
    let analysis = run_with(&program, source, &[ENVELOPE], " . ");
    assert!(analysis.calls.is_empty());
}
