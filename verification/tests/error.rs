use buck2_engine::buck2_error::context_value::Category;
use buck2_engine::buck2_error::context_value::ContextValue;
use buck2_engine::buck2_error::context_value::ErrorTag;
use buck2_engine::buck2_error::context_value::ErrorType;
use buck2_engine::buck2_error::error::Error;
use buck2_engine::buck2_error::root::ErrorRoot;
use buck2_engine::buck2_error::root::UniqueRootId;

fn test_error(id: u64) -> Error {
    Error::new(UniqueRootId(id), "Test")
}

/// The error of the library, carried as an error of the standard library.
struct Carried(Error);

impl std::fmt::Debug for Carried {
    fn fmt(&self, f: &mut std::fmt::Formatter<'_>) -> std::fmt::Result {
        f.write_str(&self.0.get_stack_for_debug())
    }
}

impl std::fmt::Display for Carried {
    fn fmt(&self, f: &mut std::fmt::Formatter<'_>) -> std::fmt::Result {
        f.write_str(&self.0.root.description)
    }
}

impl std::error::Error for Carried {}

fn into_anyhow(e: Error) -> anyhow::Error {
    anyhow::Error::new(Carried(e))
}

/// The error that `e` carries, with the context that was added on the way.
fn from_anyhow(e: anyhow::Error) -> Error {
    let mut added: Vec<String> = Vec::new();
    for cause in e.chain() {
        if let Some(carried) = cause.downcast_ref::<Carried>() {
            let mut out = carried.0.dupe();
            for text in added.iter().rev() {
                out = out.context_str(text);
            }
            return out;
        }
        added.push(cause.to_string());
    }
    panic!("no error of the library is carried")
}

#[test]
fn test_emitted_works() {
    let e: Error = test_error(1);
    assert!(e.is_emitted().is_none());
    let e = e.mark_emitted(String::new());
    assert!(e.is_emitted().is_some());
    let e: anyhow::Error = into_anyhow(e);
    let e: Error = from_anyhow(e.context("context"));
    assert!(e.is_emitted().is_some());
    assert_eq!(e.root_id(), test_error(1).root_id());
    assert!(e.get_stack_for_debug().starts_with("CONTEXT: context\nEMITTED\n"));
}

#[test]
fn test_root_id() {
    let e1: Error = test_error(1);
    let e1x = e1.dupe().context_str("context");
    let e1y = e1.dupe().context_str("context2");

    let e2: Error = test_error(2);

    assert_eq!(e1.root_id(), e1x.root_id());
    assert_eq!(e1.root_id(), e1y.root_id());
    assert_eq!(e1x.root_id(), e1y.root_id());

    assert_ne!(e1.root_id(), e2.root_id());
}

#[test]
fn emitted_text_is_the_latest() {
    let e = test_error(1)
        .mark_emitted("first".to_owned())
        .context_str("between")
        .mark_emitted("second".to_owned())
        .context_str("on top");
    assert_eq!(e.is_emitted(), Some("second"));
}

#[test]
fn category_is_infra_once_marked() {
    let e = test_error(1);
    assert_eq!(e.get_category(), None);
    let e = e.context(ContextValue::Category(Category::User));
    assert_eq!(e.get_category(), Some(Category::User));
    let e = e.context(ContextValue::Category(Category::Infra));
    assert_eq!(e.get_category(), Some(Category::Infra));
    let e = e.context(ContextValue::Category(Category::User)).context_str("x");
    assert_eq!(e.get_category(), Some(Category::Infra));
}

#[test]
fn tags_are_sorted_and_unique() {
    let e = test_error(1);
    assert_eq!(e.get_tags(), vec![]);
    let e = e
        .tag(vec![ErrorTag::Tier0, ErrorTag::Input])
        .context_str("context")
        .tag(vec![ErrorTag::Input, ErrorTag::Environment, ErrorTag::Unimplemented]);
    assert_eq!(
        e.get_tags(),
        vec![
            ErrorTag::Environment,
            ErrorTag::Input,
            ErrorTag::Tier0,
            ErrorTag::Unimplemented
        ]
    );
    let names: Vec<&str> = e.get_tags().iter().map(|t| t.as_str_name()).collect();
    let mut sorted = names.clone();
    sorted.sort();
    assert_eq!(names, sorted);
}

#[test]
fn tag_ranks_follow_the_names() {
    let all: Vec<ErrorTag> = (0..7).map(ErrorTag::from_rank).collect();
    for (r, tag) in all.iter().enumerate() {
        assert_eq!(tag.rank(), r);
    }
    for pair in all.windows(2) {
        assert!(pair[0].as_str_name() < pair[1].as_str_name());
    }
}

#[test]
fn stack_for_debug_lists_the_layers() {
    let e = Error::from_root(ErrorRoot::new(
        UniqueRootId(7),
        "the cause".to_owned(),
        Some(ErrorType::Watchman),
        Some("here.rs".to_owned()),
    ))
    .context_str("reading")
    .context(ContextValue::Category(Category::Infra))
    .mark_emitted("late".to_owned())
    .tag(vec![ErrorTag::Input]);
    assert_eq!(
        e.get_stack_for_debug(),
        "CONTEXT: TAGS\nEMITTED\nCONTEXT: INFRA\nCONTEXT: reading\nROOT:\nthe cause\n"
    );
    assert_eq!(e.get_error_type(), Some(ErrorType::Watchman));
    assert_eq!(e.source_location(), Some("here.rs"));
    assert_eq!(e.root_id(), UniqueRootId(7));
    assert_eq!(test_error(1).get_stack_for_debug(), "ROOT:\nTest\n");
    assert_eq!(test_error(1).source_location(), None);
    assert_eq!(test_error(1).get_error_type(), None);
}
