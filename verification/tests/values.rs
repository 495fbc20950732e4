use std::sync::Arc;
use std::time::Duration;

use buck2_engine::buck2_interpreter::factory::EvaluationError;
use buck2_engine::buck2_interpreter::factory::ReentrantStarlarkEvaluator;
use buck2_engine::buck2_interpreter::factory::StarlarkEvalKind;
use buck2_engine::buck2_interpreter::factory::StarlarkEvaluatorProvider;
use buck2_engine::buck2_artifact::actions::key::ActionIndex;
use buck2_engine::buck2_artifact::actions::key::ActionKey;
use buck2_engine::buck2_common::memory::allocator_stats;
use buck2_engine::buck2_common::memory::enable_background_threads;
use buck2_engine::buck2_common::memory::has_jemalloc_stats;
use buck2_engine::buck2_common::memory::write_heap_to_file;
use buck2_engine::buck2_core::build_file_path::BuildFilePath;
use buck2_engine::buck2_core::cells::CellName;
use buck2_engine::buck2_core::cells::CellRelativePathBuf;
use buck2_engine::buck2_core::deferred::BaseDeferredKey;
use buck2_engine::buck2_core::deferred::DeferredHolderKey;
use buck2_engine::buck2_core::deferred::DynamicLambdaResultsKey;
use buck2_engine::buck2_core::fs::FileNameBuf;
use buck2_engine::buck2_core::package::PackageLabel;
use buck2_engine::buck2_error::context_value::ErrorTag;
use buck2_engine::buck2_error::root::UniqueRootId;
use buck2_engine::buck2_execute::execute::dep_file_digest::CasDigestConfig;
use buck2_engine::buck2_execute::execute::dep_file_digest::CasDigestKind;
use buck2_engine::buck2_execute::execute::dep_file_digest::DepFileDigestKind;
use buck2_engine::buck2_file_watcher::mergebase::GetMergebase;
use buck2_engine::buck2_file_watcher::mergebase::Mergebase;
use buck2_engine::buck2_file_watcher::mergebase::SetMergebase;
use buck2_engine::buck2_interpreter::extra::InterpreterHostArchitecture;
use buck2_engine::buck2_interpreter::extra::InterpreterHostPlatform;
use buck2_engine::buck2_util::commas::commas;
use buck2_engine::dice::user_data::UserComputationData;
use buck2_engine::re_grpc::digest::TDigest;
use buck2_engine::re_grpc::error::TCode;
use buck2_engine::re_grpc::response::ActionResultResponse;
use buck2_engine::re_grpc::response::ExecuteWithProgressResponse;
use buck2_engine::re_grpc::response::Stage;
use buck2_engine::re_grpc::response::TTimestamp;
use buck2_engine::re_grpc::response::TaskState;
use buck2_engine::text::parse_u64;
use buck2_engine::text::u64_to_decimal;

fn timestamp(seconds: i64, nanos: i32) -> TTimestamp {
    TTimestamp { seconds, nanos }
}

#[test]
fn duration_since_earlier_timestamp() {
    let later = timestamp(10, 500);
    assert_eq!(
        later.saturating_duration_since(&timestamp(4, 100)),
        Duration::new(6, 400)
    );
    // the nanoseconds are borrowed from the seconds
    assert_eq!(
        later.saturating_duration_since(&timestamp(4, 700)),
        Duration::new(5, 999_999_800)
    );
    assert_eq!(
        later.saturating_duration_since(&timestamp(10, 500)),
        Duration::ZERO
    );
    assert_eq!(
        timestamp(0, 999_999_999).saturating_duration_since(&TTimestamp::unix_epoch()),
        Duration::new(0, 999_999_999)
    );
}

#[test]
fn duration_since_later_timestamp_is_zero() {
    let earlier = timestamp(4, 700);
    assert_eq!(earlier.saturating_duration_since(&timestamp(10, 500)), Duration::ZERO);
    assert_eq!(earlier.saturating_duration_since(&timestamp(4, 701)), Duration::ZERO);
    assert_eq!(earlier.saturating_duration_since(&timestamp(5, 5)), Duration::ZERO);
    assert_eq!(
        TTimestamp::unix_epoch().saturating_duration_since(&timestamp(0, 1)),
        Duration::ZERO
    );
    let epoch = TTimestamp::unix_epoch();
    assert_eq!((epoch.seconds, epoch.nanos), (0, 0));
}

#[test]
fn response_defaults() {
    assert!(matches!(TaskState::default(), TaskState::UnknownField(1)));
    let response = ExecuteWithProgressResponse::default();
    assert_eq!(response.stage, Stage::unknown());
    assert!(response.execute_response.is_none());
    assert!(response.metadata.task_info.is_none());
    let result = ActionResultResponse::default();
    assert_eq!(result.ttl, 0);
    assert_eq!(result.action_result.exit_code, 0);
    assert_eq!(result.action_result.execution_metadata.queued_timestamp.seconds, 0);
    assert_eq!(TDigest::default(), TDigest::new(String::new(), 0));
    assert_eq!(TCode::default(), TCode::ok());
    assert!(TCode::ok().is_ok());
    assert!(!TCode::not_found().is_ok());
    let stages = [
        (Stage::unknown(), 0),
        (Stage::cache_check(), 1),
        (Stage::queued(), 2),
        (Stage::executing(), 3),
        (Stage::completed(), 4),
        (Stage::materializing_input(), 100),
        (Stage::uploading_output(), 101),
        (Stage::keep_alive(), 102),
        (Stage::before_action(), 103),
        (Stage::after_action(), 104),
        (Stage::worker_received(), 105),
    ];
    for (stage, number) in stages {
        assert_eq!(stage.0, number);
    }
}

#[test]
fn build_file_path_parts() {
    let path = BuildFilePath::unchecked_new("cell", "foo/bar", "BUCK");
    assert_eq!(path.cell().as_str(), "cell");
    assert_eq!(path.package().to_string(), "cell//foo/bar");
    assert_eq!(path.filename().as_str(), "BUCK");
    assert_eq!(path.id().as_str(), "cell//foo/bar:BUCK");
    assert_eq!(path.to_string(), "cell//foo/bar:BUCK");
    assert_eq!(path.path().path.as_str(), "foo/bar/BUCK");
    assert_eq!(path.path().cell.as_str(), "cell");
    assert_eq!(path.build_file_cell().name().as_str(), "cell");

    // a package at the root of its cell
    let root = BuildFilePath::new(
        PackageLabel::new(
            CellName::unchecked_new("root"),
            &CellRelativePathBuf::unchecked_new(String::new()),
        ),
        FileNameBuf::unchecked_new("BUCK.v2"),
    );
    assert_eq!(root.id().as_str(), "root//:BUCK.v2");
    assert_eq!(root.path().path.as_str(), "BUCK.v2");
}

#[test]
fn action_key_parts() {
    let owner = BaseDeferredKey::TargetLabel("cell//pkg:target".to_owned());
    let key = ActionKey::new(DeferredHolderKey::Base(owner), ActionIndex::new(7));
    assert_eq!(key.action_index(), ActionIndex(7));
    assert!(matches!(key.owner(), BaseDeferredKey::TargetLabel(label) if label == "cell//pkg:target"));
    assert!(matches!(key.holder_key(), DeferredHolderKey::Base(_)));
    assert_eq!(key.action_key(), "_7");

    let lambda = DeferredHolderKey::DynamicLambda(Arc::new(DynamicLambdaResultsKey {
        owner: BaseDeferredKey::BxlLabel("bxl".to_owned()),
        action_key: "abc_1".to_owned(),
    }));
    let key = ActionKey::new(lambda, ActionIndex::new(4294967295));
    assert!(matches!(key.owner(), BaseDeferredKey::BxlLabel(label) if label == "bxl"));
    assert_eq!(key.holder_key().action_key(), Some("abc_1"));
    assert_eq!(key.action_key(), "abc_1_4294967295");
    let key = ActionKey::new(
        DeferredHolderKey::Base(BaseDeferredKey::AnonTarget("anon".to_owned())),
        ActionIndex::new(0),
    );
    assert_eq!(key.action_key(), "_0");
}

#[test]
fn decimal_numbers() {
    for n in [0u64, 1, 9, 10, 11, 99, 100, 12345, 1 << 32, u64::MAX - 1, u64::MAX] {
        let text = u64_to_decimal(n);
        assert_eq!(text, n.to_string());
        let chars: Vec<char> = text.chars().collect();
        assert_eq!(parse_u64(&chars, 0, chars.len()), Some(n));
    }
    let chars: Vec<char> = "x+42y".chars().collect();
    assert_eq!(parse_u64(&chars, 1, 4), Some(42));
    assert_eq!(parse_u64(&chars, 2, 4), Some(42));
    assert_eq!(parse_u64(&chars, 1, 2), None);
    assert_eq!(parse_u64(&chars, 0, 4), None);
    assert_eq!(parse_u64(&chars, 2, 5), None);
    assert_eq!(parse_u64(&chars, 3, 3), None);
    let chars: Vec<char> = "18446744073709551616".chars().collect();
    assert_eq!(parse_u64(&chars, 0, chars.len()), None);
    assert_eq!(parse_u64(&chars, 0, chars.len() - 1), Some(1844674407370955161));
    let chars: Vec<char> = "0018446744073709551615".chars().collect();
    assert_eq!(parse_u64(&chars, 0, chars.len()), Some(u64::MAX));
}

#[test]
fn commas_come_before_all_but_the_first() {
    let mut separator = commas();
    let mut out = String::new();
    for item in ["a", "b", "c"] {
        separator.write(&mut out);
        out.push_str(item);
    }
    assert_eq!(out, "a, b, c");

    let mut separator = commas();
    assert_eq!(separator.separator(), "");
    assert_eq!(separator.separator(), ", ");
    assert_eq!(separator.separator(), ", ");
}

#[test]
fn memory_is_not_looked_into() {
    assert!(!has_jemalloc_stats());
    assert_eq!(enable_background_threads(), Ok(()));
    let refusal = match write_heap_to_file("/tmp/heap") {
        Err(refusal) => refusal,
        Ok(()) => panic!("there is no heap dump"),
    };
    assert_eq!(refusal.message, "not implemented: heap dump for Cargo builds");
    let e = refusal.into_error(UniqueRootId(9));
    assert_eq!(e.get_tags(), vec![ErrorTag::Unimplemented]);
    assert_eq!(e.root_id(), UniqueRootId(9));
    assert_eq!(
        e.get_stack_for_debug(),
        "CONTEXT: TAGS\nROOT:\nnot implemented: heap dump for Cargo builds\n"
    );
    match allocator_stats("") {
        Err(refusal) => assert_eq!(
            refusal.message,
            "not implemented: allocator stats  for Cargo builds"
        ),
        Ok(_) => panic!("there are no stats"),
    }
}

#[test]
fn mergebase_is_kept_in_the_data() {
    let mut data = UserComputationData::new();
    data.set_mergebase(Mergebase(Arc::new(Some("abcdef".to_owned()))));
    assert_eq!(*data.get_mergebase().0, Some("abcdef".to_owned()));
    let copy = data.dupe();
    data.set_mergebase(Mergebase(Arc::new(None)));
    assert_eq!(*data.get_mergebase().0, None);
    assert_eq!(*copy.get_mergebase().0, Some("abcdef".to_owned()));
}

#[test]
fn hosts_and_digest_kinds() {
    assert_ne!(InterpreterHostPlatform::Linux, InterpreterHostPlatform::MacOS);
    assert_eq!(InterpreterHostArchitecture::X86_64, InterpreterHostArchitecture::X86_64);
    assert!(DepFileDigestKind::empty_digest(CasDigestConfig {
        source_files_from_attributes: true
    })
    .is_none());
}

#[test]
fn action_key_is_shown_with_target_and_id() {
    let owner = BaseDeferredKey::TargetLabel("cell//pkg:target".to_owned());
    let key = ActionKey::new(DeferredHolderKey::Base(owner), ActionIndex::new(7));
    assert_eq!(key.to_string(), "(target: `cell//pkg:target`, id: `7`)");
    let lambda = DeferredHolderKey::DynamicLambda(std::sync::Arc::new(DynamicLambdaResultsKey {
        owner: BaseDeferredKey::BxlLabel("cell//:f.bxl:main".to_owned()),
        action_key: "d3".to_owned(),
    }));
    assert_eq!(lambda.to_string(), "cell//:f.bxl:main_d3");
    let key = ActionKey::new(lambda, ActionIndex::new(0));
    assert_eq!(key.to_string(), "(target: `cell//:f.bxl:main_d3`, id: `0`)");
}

#[test]
fn borrowed_evaluator_cannot_be_finished() {
    let kind = || StarlarkEvalKind("analysis".to_owned());
    let provider = StarlarkEvaluatorProvider::<u8, &str, &str>::passthrough(kind(), 9);
    assert!(provider.debugger.is_none() && provider.profile_listener.is_none());
    let provider = StarlarkEvaluatorProvider {
        profiler_data: 9u8,
        eval_kind: kind(),
        debugger: Some("debugger"),
        profile_listener: Some("listener"),
        starlark_max_callstack_size: Some(50),
    };
    let evaluator = provider.make_reentrant_evaluator("evaluator".to_owned(), true);
    assert!(evaluator.is_debugging_enabled());
    assert!(evaluator.is_profiling_enabled());
    let (eval, finished) = evaluator.finish_evaluation().unwrap_or_else(|_| panic!("it is the provider's own"));
    assert_eq!(eval, "evaluator");
    assert_eq!((finished.profiler_data, finished.eval_kind.0.as_str(), finished.listener), (9, "analysis", Some("listener")));
    // the listener hears of a profile, and of nothing else
    assert_eq!(finished.to_notify(&Ok::<_, ()>(Some(1))), Some(&"listener"));
    assert_eq!(finished.to_notify(&Ok::<Option<i32>, ()>(None)), None);
    assert_eq!(finished.to_notify(&Err::<Option<i32>, ()>(())), None);

    let mut eval = "borrowed".to_owned();
    let wrapped = ReentrantStarlarkEvaluator::<String, u8, &str, &str>::wrap_evaluator_without_profiling(true, &mut eval);
    assert!(wrapped.is_debugging_enabled());
    assert!(!wrapped.is_profiling_enabled());
    match wrapped.finish_evaluation() {
        Err(e) => {
            assert_eq!(e, EvaluationError::WrappedCannotBeFinished);
            assert_eq!(e.message(), "Wrapped evaluator cannot be finished");
        }
        Ok(_) => panic!("a borrowed evaluator is finished by its owner"),
    }
}
