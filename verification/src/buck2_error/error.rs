//! The error itself.

use std::sync::Arc;

use vstd::prelude::*;

use crate::buck2_error::context_value::Category;
use crate::buck2_error::context_value::ContextValue;
use crate::buck2_error::context_value::ErrorTag;
use crate::buck2_error::context_value::ErrorType;
use crate::buck2_error::context_value::TAGS;
use crate::buck2_error::root::ErrorRoot;
use crate::buck2_error::root::UniqueRootId;
use crate::dice::value::dupe_arc;

verus! {

/// One layer on top of the root of an error.
pub enum ErrorKind {
    /// Context that was attached.
    WithContext(ContextValue),
    /// The error was shown to the user; the text is what is to be shown when
    /// the error comes up again at the end.
    Emitted(String),
}

/// An error that can be cloned cheaply: a root cause and, on top of it, the
/// layers that were added since, the latest last.
pub struct Error {
    pub root: Arc<ErrorRoot>,
    pub layers: Vec<Arc<ErrorKind>>,
}

/// The category that the layers give an error, read from the latest layer
/// down: infra as soon as one layer says so, else user if one says so.
pub open spec fn category_of(layers: Seq<Arc<ErrorKind>>) -> Option<Category>
    decreases layers.len(),
{
    if layers.len() == 0 {
        None
    } else {
        match *layers.last() {
            ErrorKind::WithContext(ContextValue::Category(Category::Infra)) => Some(Category::Infra),
            ErrorKind::WithContext(ContextValue::Category(Category::User)) => match category_of(
                layers.drop_last(),
            ) {
                Some(Category::Infra) => Some(Category::Infra),
                _ => Some(Category::User),
            },
            _ => category_of(layers.drop_last()),
        }
    }
}

/// Whether a layer says that the error is of the category.
pub open spec fn says(layer: Arc<ErrorKind>, category: Category) -> bool {
    *layer matches ErrorKind::WithContext(ContextValue::Category(c)) && c == category
}

/// Whether a layer adds the tag.
pub open spec fn layer_has_tag(layer: Arc<ErrorKind>, tag: ErrorTag) -> bool {
    *layer matches ErrorKind::WithContext(ContextValue::Tags(tags)) && tags@.contains(tag)
}

/// Whether one of the layers adds the tag.
pub open spec fn has_tag(layers: Seq<Arc<ErrorKind>>, tag: ErrorTag) -> bool {
    exists|i: int| 0 <= i < layers.len() && layer_has_tag(#[trigger] layers[i], tag)
}

/// Whether a layer marks the error as shown.
pub open spec fn is_emitted_layer(layer: Arc<ErrorKind>) -> bool {
    *layer is Emitted
}

/// The position of the latest layer that marks the error as shown, or -1.
pub open spec fn latest_emitted(layers: Seq<Arc<ErrorKind>>) -> int
    decreases layers.len(),
{
    if layers.len() == 0 {
        -1
    } else if is_emitted_layer(layers.last()) {
        layers.len() - 1
    } else {
        latest_emitted(layers.drop_last())
    }
}

/// What `get_stack_for_debug` writes for one layer.
pub open spec fn layer_line(layer: Arc<ErrorKind>) -> Seq<char> {
    match *layer {
        ErrorKind::Emitted(_) => "EMITTED\n"@,
        ErrorKind::WithContext(ContextValue::Dyn(text)) => "CONTEXT: "@ + text@ + "\n"@,
        ErrorKind::WithContext(ContextValue::Category(Category::User)) => "CONTEXT: USER\n"@,
        ErrorKind::WithContext(ContextValue::Category(Category::Infra)) => "CONTEXT: INFRA\n"@,
        ErrorKind::WithContext(ContextValue::Tags(_)) => "CONTEXT: TAGS\n"@,
    }
}

/// The lines of the layers from position `from` down to the first, the latest
/// layer first.
pub open spec fn layer_lines(layers: Seq<Arc<ErrorKind>>, from: int) -> Seq<char>
    decreases from,
{
    if from <= 0 || from > layers.len() {
        Seq::empty()
    } else {
        layer_line(layers[from - 1]) + layer_lines(layers, from - 1)
    }
}

/// The layers written one per line, the latest first, and the root last.
pub open spec fn stack_text(root: ErrorRoot, layers: Seq<Arc<ErrorKind>>) -> Seq<char> {
    layer_lines(layers, layers.len() as int) + "ROOT:\n"@ + root.description@ + "\n"@
}

impl Error {
    /// An error that is just its root.
    pub fn from_root(root: ErrorRoot) -> (e: Self)
        ensures
            *e.root == root,
            e.layers@.len() == 0,
    {
        Error { root: Arc::new(root), layers: Vec::new() }
    }

    /// An error with the given description at its root.
    pub fn new(id: UniqueRootId, description: &str) -> (e: Self)
        ensures
            e.root.id == id,
            e.root.description@ == description@,
            e.root.error_type is None,
            e.root.source_location is None,
            e.layers@.len() == 0,
    {
        Self::from_root(ErrorRoot::new(id, String::from_str(description), None, None))
    }

    /// A second handle on the same error.
    pub fn dupe(&self) -> (copy: Self)
        ensures
            copy.root == self.root,
            copy.layers@ == self.layers@,
    {
        let mut layers: Vec<Arc<ErrorKind>> = Vec::new();
        let mut i: usize = 0;
        while i < self.layers.len()
            invariant
                i <= self.layers@.len(),
                layers@ == self.layers@.take(i as int),
            decreases self.layers@.len() - i,
        {
            layers.push(dupe_arc(&self.layers[i]));
            proof {
                assert(layers@ =~= self.layers@.take(i + 1));
            }
            i = i + 1;
        }
        proof {
            assert(self.layers@.take(i as int) =~= self.layers@);
        }
        Error { root: dupe_arc(&self.root), layers }
    }

    fn with_layer(self, layer: ErrorKind) -> (e: Self)
        ensures
            e.root == self.root,
            e.layers@ == self.layers@.push(Arc::new(layer)),
            *e.layers@.last() == layer,
    {
        let mut e = self;
        e.layers.push(Arc::new(layer));
        e
    }

    /// Marks the error as shown to the user, with the text to show when it
    /// comes up again.
    pub fn mark_emitted(self, late_format: String) -> (e: Self)
        ensures
            e.root == self.root,
            e.layers@.len() == self.layers@.len() + 1,
            e.layers@.drop_last() == self.layers@,
            *e.layers@.last() == ErrorKind::Emitted(late_format),
            latest_emitted(e.layers@) == self.layers@.len(),
    {
        let e = self.with_layer(ErrorKind::Emitted(late_format));
        proof {
            assert(e.layers@.drop_last() =~= self.layers@);
        }
        e
    }

    /// If the error has not been shown to the user yet, `None`; else the text
    /// that the latest mark carries.
    pub fn is_emitted(&self) -> (late_format: Option<&str>)
        ensures
            late_format is Some <==> latest_emitted(self.layers@) >= 0,
            late_format is Some <==> exists|i: int|
                0 <= i < self.layers@.len() && is_emitted_layer(#[trigger] self.layers@[i]),
            late_format matches Some(text) ==> *self.layers@[latest_emitted(self.layers@)]
                matches ErrorKind::Emitted(s) && s@ == text@,
    {
        let mut i: usize = self.layers.len();
        proof {
            assert(self.layers@.take(i as int) =~= self.layers@);
        }
        while i > 0
            invariant
                i <= self.layers@.len(),
                latest_emitted(self.layers@) == latest_emitted(self.layers@.take(i as int)),
                forall|j: int| i <= j < self.layers@.len() ==> !is_emitted_layer(self.layers@[j]),
            decreases i,
        {
            proof {
                let s = self.layers@.take(i as int);
                assert(s.last() == self.layers@[i - 1]);
                assert(s.drop_last() =~= self.layers@.take(i - 1));
            }
            match &*self.layers[i - 1] {
                ErrorKind::Emitted(late_format) => {
                    proof {
                        assert(is_emitted_layer(self.layers@[i - 1]));
                    }
                    return Some(late_format.as_str());
                },
                _ => {},
            }
            i = i - 1;
        }
        None
    }

    pub fn get_error_type(&self) -> (error_type: Option<ErrorType>)
        ensures
            error_type == self.root.error_type,
    {
        self.root.error_type()
    }

    /// The layers of the error and its root, one per line, for debugging.
    pub fn get_stack_for_debug(&self) -> (s: String)
        ensures
            s@ == stack_text(*self.root, self.layers@),
    {
        let mut s = String::new();
        let n = self.layers.len();
        let mut i: usize = n;
        proof {
            reveal_strlit("");
            assert(layer_lines(self.layers@, n as int) =~= s@ + layer_lines(
                self.layers@,
                i as int,
            ));
        }
        while i > 0
            invariant
                i <= n,
                n == self.layers@.len(),
                layer_lines(self.layers@, n as int) == s@ + layer_lines(self.layers@, i as int),
            decreases i,
        {
            let ghost before = s@;
            match &*self.layers[i - 1] {
                ErrorKind::Emitted(_) => {
                    s.append("EMITTED\n");
                },
                ErrorKind::WithContext(ContextValue::Dyn(text)) => {
                    s.append("CONTEXT: ");
                    s.append(text.as_str());
                    s.append("\n");
                },
                ErrorKind::WithContext(ContextValue::Category(Category::User)) => {
                    s.append("CONTEXT: USER\n");
                },
                ErrorKind::WithContext(ContextValue::Category(Category::Infra)) => {
                    s.append("CONTEXT: INFRA\n");
                },
                ErrorKind::WithContext(ContextValue::Tags(_)) => {
                    s.append("CONTEXT: TAGS\n");
                },
            }
            proof {
                assert(s@ =~= before + layer_line(self.layers@[i - 1]));
                assert(s@ + layer_lines(self.layers@, i - 1) =~= before + layer_lines(
                    self.layers@,
                    i as int,
                ));
            }
            i = i - 1;
        }
        proof {
            assert(s@ =~= layer_lines(self.layers@, n as int));
        }
        s.append("ROOT:\n");
        s.append(self.root.description());
        s.append("\n");
        proof {
            assert(s@ =~= stack_text(*self.root, self.layers@));
        }
        s
    }

    /// Tells apart errors with different roots: an error keeps the id of its
    /// root whatever is added on top.
    pub fn root_id(&self) -> (id: UniqueRootId)
        ensures
            id == self.root.id,
    {
        self.root.id()
    }

    pub fn source_location(&self) -> (location: Option<&str>)
        ensures
            location is Some == self.root.source_location is Some,
            location matches Some(text) ==> text@ == self.root.source_location->0@,
    {
        self.root.source_location()
    }

    /// Attaches context.
    pub fn context(self, context: ContextValue) -> (e: Self)
        ensures
            e.root == self.root,
            e.layers@.len() == self.layers@.len() + 1,
            e.layers@.drop_last() == self.layers@,
            *e.layers@.last() == ErrorKind::WithContext(context),
    {
        let e = self.with_layer(ErrorKind::WithContext(context));
        proof {
            assert(e.layers@.drop_last() =~= self.layers@);
        }
        e
    }

    /// Attaches words that say what was being done.
    pub fn context_str(self, context: &str) -> (e: Self)
        ensures
            e.root == self.root,
            e.layers@.len() == self.layers@.len() + 1,
            e.layers@.drop_last() == self.layers@,
            *e.layers@.last() matches ErrorKind::WithContext(ContextValue::Dyn(text)) && text@
                == context@,
    {
        self.context(ContextValue::Dyn(String::from_str(context)))
    }

    /// Attaches tags.
    pub fn tag(self, tags: Vec<ErrorTag>) -> (e: Self)
        ensures
            e.root == self.root,
            e.layers@.len() == self.layers@.len() + 1,
            e.layers@.drop_last() == self.layers@,
            *e.layers@.last() == ErrorKind::WithContext(ContextValue::Tags(tags)),
    {
        self.context(ContextValue::Tags(tags))
    }

    /// The category of the error: infra if it was ever marked as infra, else
    /// user if it was marked as user, else none.
    pub fn get_category(&self) -> (category: Option<Category>)
        ensures
            category == category_of(self.layers@),
            category == Some(Category::Infra) <==> exists|i: int|
                0 <= i < self.layers@.len() && says(#[trigger] self.layers@[i], Category::Infra),
            category is None <==> forall|i: int|
                0 <= i < self.layers@.len() ==> !says(#[trigger] self.layers@[i], Category::Infra)
                    && !says(self.layers@[i], Category::User),
    {
        let mut out: Option<Category> = None;
        let mut i: usize = 0;
        proof {
            assert(self.layers@.take(0) =~= Seq::<Arc<ErrorKind>>::empty());
        }
        while i < self.layers.len()
            invariant
                i <= self.layers@.len(),
                out == category_of(self.layers@.take(i as int)),
                out == Some(Category::Infra) <==> exists|j: int|
                    0 <= j < i && says(#[trigger] self.layers@[j], Category::Infra),
                out is None <==> forall|j: int|
                    0 <= j < i ==> !says(#[trigger] self.layers@[j], Category::Infra) && !says(
                        self.layers@[j],
                        Category::User,
                    ),
            decreases self.layers@.len() - i,
        {
            proof {
                let s = self.layers@.take(i + 1);
                assert(s.last() == self.layers@[i as int]);
                assert(s.drop_last() =~= self.layers@.take(i as int));
            }
            match &*self.layers[i] {
                ErrorKind::WithContext(ContextValue::Category(Category::Infra)) => {
                    proof {
                        assert(says(self.layers@[i as int], Category::Infra));
                    }
                    out = Some(Category::Infra);
                },
                ErrorKind::WithContext(ContextValue::Category(Category::User)) => {
                    proof {
                        assert(says(self.layers@[i as int], Category::User));
                    }
                    out = match out {
                        Some(Category::Infra) => Some(Category::Infra),
                        _ => Some(Category::User),
                    };
                },
                _ => {},
            }
            i = i + 1;
        }
        proof {
            assert(self.layers@.take(i as int) =~= self.layers@);
        }
        out
    }

    /// All the tags that have been added to this error: each once, in the
    /// order of their names.
    #[verifier::rlimit(50)]
    pub fn get_tags(&self) -> (tags: Vec<ErrorTag>)
        ensures
            forall|tag: ErrorTag| tags@.contains(tag) <==> has_tag(self.layers@, tag),
            forall|i: int, j: int|
                0 <= i < j < tags@.len() ==> (#[trigger] tags@[i]).rank_spec() < (
                #[trigger] tags@[j]).rank_spec(),
    {
        let mut present: Vec<bool> = Vec::new();
        let mut r: usize = 0;
        while r < TAGS
            invariant
                r <= TAGS,
                present@.len() == r,
                forall|k: int| 0 <= k < r ==> !present@[k],
            decreases TAGS - r,
        {
            present.push(false);
            r = r + 1;
        }
        let mut i: usize = 0;
        while i < self.layers.len()
            invariant
                i <= self.layers@.len(),
                present@.len() == TAGS,
                forall|tag: ErrorTag|
                    present@[tag.rank_spec() as int] <==> has_tag(self.layers@.take(i as int), tag),
            decreases self.layers@.len() - i,
        {
            let ghost before = present@;
            match &*self.layers[i] {
                ErrorKind::WithContext(ContextValue::Tags(added)) => {
                    let mut j: usize = 0;
                    while j < added.len()
                        invariant
                            j <= added@.len(),
                            present@.len() == TAGS,
                            forall|tag: ErrorTag|
                                present@[tag.rank_spec() as int] <==> (before[tag.rank_spec() as int]
                                    || added@.take(j as int).contains(tag)),
                        decreases added@.len() - j,
                    {
                        let ghost mid = present@;
                        let tag = added[j];
                        present.set(tag.rank(), true);
                        proof {
                            assert(added@.take(j + 1) =~= added@.take(j as int).push(tag));
                            assert forall|t: ErrorTag|
                                present@[t.rank_spec() as int] <==> (before[t.rank_spec() as int]
                                    || added@.take(j + 1).contains(t)) by {
                                lemma_push_contains(added@.take(j as int), tag, t);
                                if t.rank_spec() == tag.rank_spec() {
                                    assert(t == tag);
                                }
                            }
                        }
                        j = j + 1;
                    }
                    proof {
                        assert(added@.take(j as int) =~= added@);
                    }
                },
                _ => {},
            }
            proof {
                let layer = self.layers@[i as int];
                let s0 = self.layers@.take(i as int);
                let s1 = self.layers@.take(i + 1);
                assert(s1 =~= s0.push(layer));
                assert forall|tag: ErrorTag|
                    present@[tag.rank_spec() as int] <==> has_tag(s1, tag) by {
                    if has_tag(s0, tag) {
                        let k = choose|k: int| 0 <= k < s0.len() && layer_has_tag(s0[k], tag);
                        assert(layer_has_tag(s1[k], tag));
                    }
                    if layer_has_tag(layer, tag) {
                        assert(layer_has_tag(s1[i as int], tag));
                    }
                    if has_tag(s1, tag) {
                        let k = choose|k: int| 0 <= k < s1.len() && layer_has_tag(s1[k], tag);
                        if k < i {
                            assert(layer_has_tag(s0[k], tag));
                        }
                    }
                }
            }
            i = i + 1;
        }
        proof {
            assert(self.layers@.take(i as int) =~= self.layers@);
        }
        let mut tags: Vec<ErrorTag> = Vec::new();
        let mut r: usize = 0;
        while r < TAGS
            invariant
                r <= TAGS,
                present@.len() == TAGS,
                forall|tag: ErrorTag|
                    tags@.contains(tag) <==> (present@[tag.rank_spec() as int] && tag.rank_spec()
                        < r),
                forall|a: int, b: int|
                    0 <= a < b < tags@.len() ==> (#[trigger] tags@[a]).rank_spec() < (
                    #[trigger] tags@[b]).rank_spec(),
                forall|a: int| 0 <= a < tags@.len() ==> (#[trigger] tags@[a]).rank_spec() < r,
            decreases TAGS - r,
        {
            if present[r] {
                let ghost before = tags@;
                let tag = ErrorTag::from_rank(r);
                tags.push(tag);
                proof {
                    assert forall|t: ErrorTag|
                        tags@.contains(t) <==> (present@[t.rank_spec() as int] && t.rank_spec() < r
                            + 1) by {
                        lemma_push_contains(before, tag, t);
                        if t.rank_spec() == r {
                            assert(t == tag);
                        }
                    }
                }
            }
            r = r + 1;
        }
        tags
    }
}

/// What a sequence with one more item holds.
pub proof fn lemma_push_contains<A>(s: Seq<A>, x: A, y: A)
    ensures
        s.push(x).contains(y) <==> (s.contains(y) || y == x),
{
    if s.contains(y) {
        let i = choose|i: int| 0 <= i < s.len() && s[i] == y;
        assert(s.push(x)[i] == y);
    }
    if y == x {
        assert(s.push(x)[s.len() as int] == y);
    }
}

} // verus!
