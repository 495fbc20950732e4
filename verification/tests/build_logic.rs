use buck2_engine::buck2_build_api::configure_targets::check_modifiers;
use buck2_engine::buck2_build_api::configure_targets::get_maybe_compatible_targets;
use buck2_engine::buck2_build_api::configure_targets::merge_target_sets;
use buck2_engine::buck2_build_api::configure_targets::local_cfg_options;
use buck2_engine::buck2_build_api::configure_targets::split_compatible_incompatible;
use buck2_engine::buck2_build_api::configure_targets::GlobalCfgOptions;
use buck2_engine::buck2_build_api::configure_targets::MaybeCompatible;
use buck2_engine::buck2_build_api::configure_targets::ModifiersConflict;
use buck2_engine::buck2_build_api::configure_targets::ParsedPatternWithModifiers;
use buck2_engine::buck2_build_api::execution_platform_registration_info::info_creator;
use buck2_engine::buck2_build_api::execution_platform_registration_info::ExecutionPlatform;
use buck2_engine::buck2_build_api::execution_platform_registration_info::ExecutionPlatformFallback;
use buck2_engine::buck2_build_api::execution_platform_registration_info::ExecutionPlatformRegistrationTypeError;
use buck2_engine::buck2_build_api::execution_platform_registration_info::FrozenValue;
use buck2_engine::buck2_bxl::calculation::BxlComputeKey;
use buck2_engine::buck2_bxl::calculation::BxlComputeResult;
use buck2_engine::buck2_bxl::calculation::BxlEvalError;
use buck2_engine::buck2_bxl::calculation::BxlKey;
use buck2_engine::buck2_bxl::calculation::BxlResult;
use buck2_engine::buck2_error::error::Error;
use buck2_engine::buck2_error::root::UniqueRootId;
use buck2_engine::buck2_interpreter_for_build::enumeration::AttrValue;
use buck2_engine::buck2_interpreter_for_build::enumeration::CoercedAttr;
use buck2_engine::buck2_interpreter_for_build::enumeration::CoercionError;
use buck2_engine::buck2_interpreter_for_build::enumeration::EnumAttrType;
use buck2_engine::buck2_interpreter_for_build::package::parse_visibility;
use buck2_engine::buck2_interpreter_for_build::package::parse_within_view;
use buck2_engine::buck2_interpreter_for_build::package::PackageCallError;
use buck2_engine::buck2_interpreter_for_build::package::ParsedPattern;
use buck2_engine::buck2_interpreter_for_build::package::PatternError;
use buck2_engine::buck2_interpreter_for_build::package::WrittenPattern;
use buck2_engine::buck2_interpreter_for_build::package::PackageFileError;
use buck2_engine::buck2_interpreter_for_build::package::PackageFileEvalCtx;
use buck2_engine::buck2_interpreter_for_build::package::VisibilityPattern;
use buck2_engine::buck2_server_commands::dot::targets::DotTargetGraph;
use buck2_engine::buck2_server_commands::dot::targets::QueryTargetNode;
use buck2_engine::buck2_server_ctx::commands::command_end;
use buck2_engine::buck2_server_ctx::commands::command_end_ext;
use buck2_engine::buck2_server_ctx::commands::send_target_cfg_event;
use buck2_engine::buck2_server_ctx::commands::BuildResult;
use buck2_engine::dice::key::Key;
use buck2_engine::dice::key::StorageType;
use std::sync::Arc;

fn platform(label: &str) -> FrozenValue {
    FrozenValue::ExecutionPlatformInfo(ExecutionPlatform { label: label.to_owned() })
}

#[test]
fn fallback_of_execution_platforms() {
    let info = info_creator(FrozenValue::List(vec![]), None);
    assert!(matches!(info.fallback(), Ok(ExecutionPlatformFallback::UseUnspecifiedExec)));
    let info = info_creator(FrozenValue::List(vec![]), Some(FrozenValue::Str("error".to_owned())));
    assert!(matches!(info.fallback(), Ok(ExecutionPlatformFallback::Error)));
    let info = info_creator(
        FrozenValue::List(vec![]),
        Some(FrozenValue::Str("use_unspecified".to_owned())),
    );
    assert!(matches!(info.fallback(), Ok(ExecutionPlatformFallback::UseUnspecifiedExec)));
    let info = info_creator(FrozenValue::List(vec![]), Some(platform("p")));
    assert!(matches!(info.fallback(), Ok(ExecutionPlatformFallback::Platform(p)) if p.label == "p"));
    let info = info_creator(FrozenValue::List(vec![]), Some(FrozenValue::Str("Error".to_owned())));
    assert!(matches!(
        info.fallback(),
        Err(ExecutionPlatformRegistrationTypeError::InvalidFallback(repr, "string")) if repr == "Error"
    ));
    let info = info_creator(
        FrozenValue::List(vec![]),
        Some(FrozenValue::Other("1".to_owned(), "int".to_owned())),
    );
    assert!(matches!(
        info.fallback(),
        Err(ExecutionPlatformRegistrationTypeError::InvalidFallback(repr, "value")) if repr == "1"
    ));
}

#[test]
fn platforms_have_to_be_a_list_of_platforms() {
    let info = info_creator(FrozenValue::List(vec![platform("a"), platform("b")]), None);
    let labels: Vec<String> = info
        .platforms()
        .unwrap_or_else(|_| panic!("all are platforms"))
        .into_iter()
        .map(|p| p.label)
        .collect();
    assert_eq!(labels, vec!["a".to_owned(), "b".to_owned()]);
    let info = info_creator(FrozenValue::List(vec![]), None);
    assert!(matches!(info.platforms(), Ok(platforms) if platforms.is_empty()));

    let info = info_creator(
        FrozenValue::List(vec![
            platform("a"),
            FrozenValue::Str("x".to_owned()),
            FrozenValue::NoneValue,
        ]),
        None,
    );
    assert!(matches!(
        info.platforms(),
        Err(ExecutionPlatformRegistrationTypeError::NotAPlatform(repr, "string")) if repr == "x"
    ));
    let info = info_creator(platform("a"), None);
    assert!(matches!(
        info.platforms(),
        Err(ExecutionPlatformRegistrationTypeError::ExpectedListOfPlatforms(repr, "ExecutionPlatformInfo")) if repr == "a"
    ));
    let info = info_creator(FrozenValue::NoneValue, None);
    assert!(matches!(
        info.platforms(),
        Err(ExecutionPlatformRegistrationTypeError::ExpectedListOfPlatforms(repr, "NoneType")) if repr == "None"
    ));
}

#[test]
fn enum_names_are_coerced_in_lower_case() {
    let enumeration = EnumAttrType { variants: vec!["red".to_owned(), "straße".to_owned()] };
    assert!(matches!(
        enumeration.coerce_item(&AttrValue::Str("RED".to_owned())),
        Ok(CoercedAttr::EnumVariant(name)) if name == "red"
    ));
    assert!(matches!(
        enumeration.coerce_item(&AttrValue::Str("STRAßE".to_owned())),
        Ok(CoercedAttr::EnumVariant(name)) if name == "straße"
    ));
    match enumeration.coerce_item(&AttrValue::Str("Blue".to_owned())) {
        Err(CoercionError::InvalidEnumVariant(name, wanted)) => {
            assert_eq!(name, "blue");
            assert_eq!(wanted, vec!["red".to_owned(), "straße".to_owned()]);
        }
        _ => panic!("blue is no name of the enumeration"),
    }
    assert!(matches!(
        enumeration.coerce_item(&AttrValue::Other("[1]".to_owned())),
        Err(CoercionError::TypeError("string", got)) if got == "[1]"
    ));
    // a name that is not in lower case is not found as it is
    assert!(matches!(
        enumeration.coerce_lowercased("RED".to_owned()),
        Err(CoercionError::InvalidEnumVariant(_, _))
    ));
}

fn written(text: &str) -> WrittenPattern {
    WrittenPattern { text: text.to_owned(), parsed: Ok(ParsedPattern(text.to_owned())) }
}

fn unreadable(text: &str) -> WrittenPattern {
    WrittenPattern {
        text: text.to_owned(),
        parsed: Err(PatternError { message: format!("`{text}` is no pattern") }),
    }
}

#[test]
fn package_is_called_at_most_once() {
    let mut ctx = PackageFileEvalCtx::new();
    ctx.test_config_unification_rollout(true);
    assert!(matches!(ctx.package(true, &vec![written("PUBLIC")], &vec![written("//a/...")]), Ok(())));
    assert!(matches!(
        ctx.package(false, &vec![], &vec![]),
        Err(PackageCallError::File(PackageFileError::AtMostOnce))
    ));
    let fields = ctx.visibility.unwrap_or_else(|| panic!("package() was called"));
    assert!(fields.inherit);
    assert!(matches!(fields.visibility[..], [VisibilityPattern::Public]));
    assert!(matches!(&fields.within_view[..], [VisibilityPattern::Pattern(p)] if p.0 == "//a/..."));
    assert_eq!(ctx.test_config_unification_rollout, Some(true));

    let parsed = parse_visibility(&vec![written("public"), written("PUBLIC"), written("PUBLIC ")])
        .unwrap_or_else(|_| panic!("each is the public word or a pattern"));
    assert!(matches!(
        &parsed[..],
        [VisibilityPattern::Pattern(a), VisibilityPattern::Public, VisibilityPattern::Pattern(b)]
            if a.0 == "public" && b.0 == "PUBLIC "
    ));
}

#[test]
fn malformed_pattern_fails_the_list() {
    // the first that is no pattern is the error
    let list = vec![written("//a:b"), unreadable("a b"), written("PUBLIC"), unreadable("??")];
    assert!(matches!(parse_visibility(&list), Err(e) if e.message == "`a b` is no pattern"));
    assert!(matches!(parse_within_view(&list), Err(e) if e.message == "`a b` is no pattern"));
    // the public word is not handed to the parser of patterns
    let public = WrittenPattern {
        text: "PUBLIC".to_owned(),
        parsed: Err(PatternError { message: "never asked".to_owned() }),
    };
    assert!(matches!(parse_visibility(&vec![public]).as_deref(), Ok([VisibilityPattern::Public])));

    // the visibility is read before the within-view, and both before the call is counted
    let mut ctx = PackageFileEvalCtx::new();
    assert!(matches!(
        ctx.package(true, &vec![unreadable("x")], &vec![unreadable("y")]),
        Err(PackageCallError::Pattern(e)) if e.message == "`x` is no pattern"
    ));
    assert!(matches!(
        ctx.package(true, &vec![written("//x/...")], &vec![unreadable("y")]),
        Err(PackageCallError::Pattern(e)) if e.message == "`y` is no pattern"
    ));
    assert!(ctx.visibility.is_none());
    assert!(matches!(ctx.package(true, &vec![], &vec![]), Ok(())));
    assert!(matches!(
        ctx.package(true, &vec![unreadable("x")], &vec![]),
        Err(PackageCallError::Pattern(_))
    ));
    assert!(matches!(
        ctx.package(true, &vec![], &vec![]),
        Err(PackageCallError::File(PackageFileError::AtMostOnce))
    ));
}

fn compatible(label: &str) -> Result<MaybeCompatible, Error> {
    Ok(MaybeCompatible::Compatible(label.to_owned()))
}

fn incompatible(label: &str) -> Result<MaybeCompatible, Error> {
    Ok(MaybeCompatible::Incompatible(label.to_owned()))
}

#[test]
fn targets_are_split_by_compatibility() {
    let split = split_compatible_incompatible(vec![
        compatible("a"),
        incompatible("x"),
        compatible("b"),
        compatible("a"),
        incompatible("x"),
        incompatible("a"),
    ]);
    match split {
        Ok((targets, skipped)) => {
            assert_eq!(targets, vec!["a".to_owned(), "b".to_owned()]);
            assert_eq!(skipped, vec!["x".to_owned(), "a".to_owned()]);
        }
        Err(_) => panic!("there is no error"),
    }
    let split = split_compatible_incompatible(vec![
        compatible("a"),
        Err(Error::new(UniqueRootId(1), "first")),
        Err(Error::new(UniqueRootId(2), "second")),
    ]);
    assert_eq!(split.err().map(|e| e.root_id()), Some(UniqueRootId(1)));
    assert!(matches!(split_compatible_incompatible(vec![]), Ok((a, b)) if a.is_empty() && b.is_empty()));
}

#[test]
fn modifiers_come_from_one_place() {
    let none = GlobalCfgOptions { target_platform: Some("p".to_owned()), cli_modifiers: vec![] };
    let global = GlobalCfgOptions {
        target_platform: Some("p".to_owned()),
        cli_modifiers: vec!["m".to_owned()],
    };
    let plain = ParsedPatternWithModifiers { parsed_pattern: "//a:b".to_owned(), modifiers: None };
    let own = ParsedPatternWithModifiers {
        parsed_pattern: "//a:c".to_owned(),
        modifiers: Some(vec!["x".to_owned(), "y".to_owned()]),
    };
    let local = local_cfg_options(&global, &own.modifiers);
    assert_eq!(local.cli_modifiers, vec!["x".to_owned(), "y".to_owned()]);
    assert_eq!(local.target_platform, Some("p".to_owned()));
    assert_eq!(local_cfg_options(&global, &plain.modifiers).cli_modifiers, vec!["m".to_owned()]);

    let patterns = vec![plain, own];
    assert_eq!(check_modifiers(&none, &patterns), Ok(()));
    assert_eq!(check_modifiers(&global, &patterns), Err(ModifiersConflict));
    assert_eq!(check_modifiers(&global, &vec![]), Ok(()));
    assert_eq!(
        ModifiersConflict.message(),
        "Cannot specify modifiers with ?modifier syntax when global CLI modifiers are set with --modifier flag"
    );
}

#[test]
fn command_end_events() {
    let ok: Result<u32, Error> = Ok(3);
    let failed: Result<u32, Error> = Err(Error::new(UniqueRootId(1), "failed"));
    let end = command_end(&ok, "data");
    assert_eq!(end.data, Some("data"));
    assert!(end.build_result.is_none());
    let end = command_end_ext(&ok, 1, |r| Some(BuildResult { build_completed: *r == 3 }));
    assert_eq!(end.data, Some(1));
    assert!(matches!(end.build_result, Some(BuildResult { build_completed: true })));
    let end = command_end_ext(&failed, 1, |_| Some(BuildResult { build_completed: true }));
    assert!(end.build_result.is_none());

    let event = send_target_cfg_event(
        vec![Some("linux".to_owned()), None, Some("mac".to_owned()), Some("linux".to_owned())],
        Some(vec!["m".to_owned()]),
    );
    assert_eq!(event.target_platforms, vec!["linux".to_owned(), "mac".to_owned()]);
    assert_eq!(event.cli_modifiers, vec!["m".to_owned()]);
    let event = send_target_cfg_event(vec![None], None);
    assert!(event.target_platforms.is_empty());
    assert!(event.cli_modifiers.is_empty());
}

fn target(key: &str, deps: &[&str], attrs: &[(&str, &str)]) -> QueryTargetNode {
    QueryTargetNode {
        key: key.to_owned(),
        deps: deps.iter().map(|d| (*d).to_owned()).collect(),
        attrs: attrs.iter().map(|(n, v)| ((*n).to_owned(), (*v).to_owned())).collect(),
    }
}

#[test]
fn dot_graph_of_targets() {
    let attributes = regex::RegexSet::new(["^name$", "dep"])
        .unwrap_or_else(|e| panic!("the expressions are fine: {}", e));
    let graph = DotTargetGraph {
        targets: vec![
            target(
                "//a:a",
                &["//a:b", "//x:x", "//a:c", "//a:b"],
                &[("name", "a"), ("srcs", "[]"), ("deps", "1"), ("exec_deps", "2"), ("name", "A")],
            ),
            target("//a:b", &[], &[]),
            target("//a:c", &["//a:a"], &[("visibility", "PUBLIC")]),
        ],
        attributes: Some(attributes),
    };
    assert_eq!(graph.name(), "result_graph");
    let nodes = graph.for_each_node();
    let ids: Vec<String> = nodes.iter().map(|n| n.id()).collect();
    assert_eq!(ids, vec!["//a:a".to_owned(), "//a:b".to_owned(), "//a:c".to_owned()]);

    // only the edges to nodes of the graph
    let edges: Vec<(String, String)> = graph
        .for_each_edge(&nodes[0])
        .into_iter()
        .map(|e| (e.from, e.to))
        .collect();
    assert_eq!(
        edges,
        vec![
            ("//a:a".to_owned(), "//a:b".to_owned()),
            ("//a:a".to_owned(), "//a:c".to_owned()),
            ("//a:a".to_owned(), "//a:b".to_owned()),
        ]
    );
    assert!(graph.for_each_edge(&nodes[1]).is_empty());

    let attrs = nodes[0].attrs();
    assert_eq!(attrs.style, Some("filled".to_owned()));
    assert_eq!(attrs.color, Some("#DFECDF".to_owned()));
    assert_eq!(attrs.label, None);
    assert_eq!(
        attrs.extra,
        vec![
            ("buck_name".to_owned(), "A".to_owned()),
            ("buck_deps".to_owned(), "1".to_owned()),
            ("buck_exec_deps".to_owned(), "2".to_owned()),
        ]
    );
    assert!(nodes[2].attrs().extra.is_empty());

    let plain = DotTargetGraph { targets: vec![target("//a:a", &[], &[("name", "a")])], attributes: None };
    assert!(plain.for_each_node()[0].attrs().extra.is_empty());
}

#[test]
fn bxl_results_are_never_equal() {
    let ok = || -> Result<BxlComputeResult, BxlEvalError> {
        Ok(BxlComputeResult(Arc::new(BxlResult { output: "out".to_owned() })))
    };
    let failed: Result<BxlComputeResult, BxlEvalError> =
        Err(BxlEvalError { error: Error::new(UniqueRootId(1), "cancelled") });
    assert!(!BxlComputeKey::equality(&ok(), &ok()));
    assert!(BxlComputeKey::validity(&ok()));
    assert!(!BxlComputeKey::validity(&failed));
    let key = BxlComputeKey(BxlKey { label: 1 });
    assert!(key.same_key(&BxlComputeKey(BxlKey { label: 1 })));
    assert!(!key.same_key(&BxlComputeKey(BxlKey { label: 2 })));
    assert!(matches!(key.storage_type(), StorageType::Normal));
}

#[test]
fn loaded_targets_are_listed_in_order() {
    let names = |names: &[&str]| -> Vec<String> { names.iter().map(|n| (*n).to_owned()).collect() };
    let loaded = || -> Vec<Result<Vec<String>, Error>> {
        vec![
            Ok(names(&["//a:a", "//a:b"])),
            Err(Error::new(UniqueRootId(1), "no such package")),
            Ok(names(&[])),
            Err(Error::new(UniqueRootId(2), "no such package either")),
            Ok(names(&["//c:c", "//a:a"])),
        ]
    };
    assert_eq!(
        get_maybe_compatible_targets(loaded(), false).err().map(|e| e.root_id()),
        Some(UniqueRootId(1))
    );
    assert_eq!(
        get_maybe_compatible_targets(loaded(), true).ok(),
        Some(names(&["//a:a", "//a:b", "//c:c", "//a:a"]))
    );
    assert_eq!(get_maybe_compatible_targets(vec![], false).ok(), Some(vec![]));

    assert_eq!(
        merge_target_sets(vec![
            names(&["//a:a", "//a:b"]),
            names(&[]),
            names(&["//a:b", "//c:c", "//a:a", "//c:c"]),
        ]),
        names(&["//a:a", "//a:b", "//c:c"])
    );
    assert!(merge_target_sets(vec![]).is_empty());
}
