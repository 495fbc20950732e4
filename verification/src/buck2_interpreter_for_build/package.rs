//! What a `PACKAGE` file sets for its package.

use vstd::prelude::*;

verus! {

/// A pattern that names targets, as the parser of patterns made it.
pub struct ParsedPattern(pub String);

/// Why a text is not a pattern.
pub struct PatternError {
    pub message: String,
}

/// A pattern as it is written in the file, and what the parser of patterns
/// made of it.
pub struct WrittenPattern {
    pub text: String,
    pub parsed: Result<ParsedPattern, PatternError>,
}

/// What the files of a package can be seen by: everybody, or the targets of
/// a pattern.
pub enum VisibilityPattern {
    Public,
    Pattern(ParsedPattern),
}

/// The word that makes a package visible to everybody.
pub open spec fn public_word() -> Seq<char> {
    "PUBLIC"@
}

/// Whether the list cannot be read because of `pattern`: it is not the
/// public word, and it is not a pattern either.
pub open spec fn fails(pattern: WrittenPattern) -> bool {
    pattern.text@ != public_word() && pattern.parsed is Err
}

/// The place of the first of `patterns` because of which the list cannot be
/// read.
pub open spec fn first_failure(patterns: Seq<WrittenPattern>) -> Option<int>
    decreases patterns.len(),
{
    if patterns.len() == 0 {
        None
    } else {
        match first_failure(patterns.drop_last()) {
            Some(i) => Some(i),
            None => if fails(patterns.last()) {
                Some(patterns.len() - 1)
            } else {
                None
            },
        }
    }
}

/// Whether `read` is what `pattern` stands for.
pub open spec fn stands_for(pattern: WrittenPattern, read: VisibilityPattern) -> bool {
    match read {
        VisibilityPattern::Public => pattern.text@ == public_word(),
        VisibilityPattern::Pattern(parsed) => {
            &&& pattern.text@ != public_word()
            &&& pattern.parsed matches Ok(made)
            &&& parsed.0@ == made.0@
        },
    }
}

/// Whether `parsed` is what `patterns` stand for, each in its place.
pub open spec fn is_parsed(patterns: Seq<WrittenPattern>, parsed: Seq<VisibilityPattern>) -> bool {
    &&& parsed.len() == patterns.len()
    &&& forall|i: int| 0 <= i < patterns.len() ==> stands_for(patterns[i], #[trigger] parsed[i])
}

/// The first failure is a place of the list at which the list fails, and
/// there is none exactly if the list fails nowhere.
pub proof fn lemma_first_failure(patterns: Seq<WrittenPattern>)
    ensures
        match first_failure(patterns) {
            Some(i) => 0 <= i < patterns.len() && fails(patterns[i]) && forall|j: int|
                0 <= j < i ==> !fails(#[trigger] patterns[j]),
            None => forall|j: int| 0 <= j < patterns.len() ==> !fails(#[trigger] patterns[j]),
        },
    decreases patterns.len(),
{
    if patterns.len() > 0 {
        lemma_first_failure(patterns.drop_last());
        let rest = patterns.drop_last();
        assert forall|j: int| 0 <= j < rest.len() implies rest[j] == patterns[j] by {}
        match first_failure(rest) {
            Some(i) => {
                assert forall|j: int| 0 <= j < i implies !fails(#[trigger] patterns[j]) by {
                    assert(rest[j] == patterns[j]);
                }
            },
            None => {
                assert forall|j: int| 0 <= j < patterns.len() - 1 implies !fails(
                    #[trigger] patterns[j],
                ) by {
                    assert(rest[j] == patterns[j]);
                }
            },
        }
    }
}

/// Reads the list of patterns of a visibility. The public word is told apart
/// from the patterns. The list is read if each of the others is a pattern;
/// else the answer is why the first of them is none.
pub fn parse_visibility(patterns: &Vec<WrittenPattern>) -> (result: Result<
    Vec<VisibilityPattern>,
    PatternError,
>)
    ensures
        match result {
            Ok(parsed) => first_failure(patterns@) is None && is_parsed(patterns@, parsed@),
            Err(e) => first_failure(patterns@) matches Some(i) && patterns@[i].parsed matches Err(
                why,
            ) && e.message@ == why.message@,
        },
{
    let public = String::from_str("PUBLIC");
    let mut parsed: Vec<VisibilityPattern> = Vec::new();
    let mut i: usize = 0;
    while i < patterns.len()
        invariant
            i <= patterns@.len(),
            public@ == public_word(),
            first_failure(patterns@.take(i as int)) is None,
            is_parsed(patterns@.take(i as int), parsed@),
        decreases patterns@.len() - i,
    {
        let pattern = &patterns[i];
        proof {
            assert(patterns@.take(i + 1).drop_last() =~= patterns@.take(i as int));
            assert(patterns@.take(i + 1).last() == patterns@[i as int]);
        }
        if pattern.text == public {
            parsed.push(VisibilityPattern::Public);
        } else {
            match &pattern.parsed {
                Ok(made) => {
                    parsed.push(VisibilityPattern::Pattern(ParsedPattern(made.0.clone())));
                },
                Err(why) => {
                    proof {
                        lemma_first_is_the_failure(patterns@, i as int);
                    }
                    return Err(PatternError { message: why.message.clone() });
                },
            }
        }
        proof {
            let p = patterns@.take(i + 1);
            assert forall|k: int| 0 <= k < p.len() implies stands_for(p[k], #[trigger] parsed@[k]) by {
                if k < i {
                    assert(patterns@.take(i as int)[k] == p[k]);
                }
            }
        }
        i = i + 1;
    }
    proof {
        assert(patterns@.take(i as int) =~= patterns@);
    }
    Ok(parsed)
}

/// Where the list fails at `i` and nowhere before, `i` is its first failure.
pub proof fn lemma_first_is_the_failure(patterns: Seq<WrittenPattern>, i: int)
    requires
        0 <= i < patterns.len(),
        fails(patterns[i]),
        first_failure(patterns.take(i)) is None,
    ensures
        first_failure(patterns) == Some(i),
    decreases patterns.len(),
{
    lemma_first_failure(patterns);
    lemma_first_failure(patterns.take(i));
    let found = first_failure(patterns)->0;
    if found < i {
        assert(patterns.take(i)[found] == patterns[found]);
    }
}

/// Reads the list of patterns of a within-view; they are written like those
/// of a visibility.
pub fn parse_within_view(patterns: &Vec<WrittenPattern>) -> (result: Result<
    Vec<VisibilityPattern>,
    PatternError,
>)
    ensures
        match result {
            Ok(parsed) => first_failure(patterns@) is None && is_parsed(patterns@, parsed@),
            Err(e) => first_failure(patterns@) matches Some(i) && patterns@[i].parsed matches Err(
                why,
            ) && e.message@ == why.message@,
        },
{
    parse_visibility(patterns)
}

/// What `package()` sets.
pub struct PackageFileVisibilityFields {
    pub visibility: Vec<VisibilityPattern>,
    pub within_view: Vec<VisibilityPattern>,
    pub inherit: bool,
}

#[derive(Clone, Copy, Debug, PartialEq, Eq, Structural)]
pub enum PackageFileError {
    /// `package()` function can be used at most once per `PACKAGE` file
    AtMostOnce,
}

/// Why a call of `package()` failed.
pub enum PackageCallError {
    /// One of the lists holds something that is no pattern.
    Pattern(PatternError),
    File(PackageFileError),
}

/// What a `PACKAGE` file has set so far.
pub struct PackageFileEvalCtx {
    pub visibility: Option<PackageFileVisibilityFields>,
    pub test_config_unification_rollout: Option<bool>,
}

impl PackageFileEvalCtx {
    pub fn new() -> (ctx: Self)
        ensures
            ctx.visibility is None,
            ctx.test_config_unification_rollout is None,
    {
        PackageFileEvalCtx { visibility: None, test_config_unification_rollout: None }
    }

    /// The call `test_config_unification_rollout(enabled)`.
    pub fn test_config_unification_rollout(&mut self, enabled: bool)
        ensures
            final(self).test_config_unification_rollout == Some(enabled),
            final(self).visibility == old(self).visibility,
    {
        self.test_config_unification_rollout = Some(enabled);
    }

    /// The call `package(inherit, visibility, within_view)`. Both lists are
    /// read first, the visibility before the within-view, and what cannot be
    /// read is an error. After that the second call in a file is an error. An
    /// error changes nothing.
    pub fn package(
        &mut self,
        inherit: bool,
        visibility: &Vec<WrittenPattern>,
        within_view: &Vec<WrittenPattern>,
    ) -> (result: Result<(), PackageCallError>)
        ensures
            final(self).test_config_unification_rollout == old(
                self,
            ).test_config_unification_rollout,
            result is Err ==> final(self).visibility == old(self).visibility,
            match result {
                Ok(_) => {
                    &&& first_failure(visibility@) is None
                    &&& first_failure(within_view@) is None
                    &&& old(self).visibility is None
                    &&& final(self).visibility matches Some(fields)
                    &&& fields.inherit == inherit
                    &&& is_parsed(visibility@, fields.visibility@)
                    &&& is_parsed(within_view@, fields.within_view@)
                },
                Err(PackageCallError::Pattern(e)) => {
                    let list = if first_failure(visibility@) is Some {
                        visibility@
                    } else {
                        within_view@
                    };
                    &&& first_failure(list) matches Some(i)
                    &&& list[i].parsed matches Err(why)
                    &&& e.message@ == why.message@
                },
                Err(PackageCallError::File(e)) => {
                    &&& first_failure(visibility@) is None
                    &&& first_failure(within_view@) is None
                    &&& old(self).visibility is Some
                    &&& e == PackageFileError::AtMostOnce
                },
            },
    {
        let visibility = match parse_visibility(visibility) {
            Ok(parsed) => parsed,
            Err(e) => {
                return Err(PackageCallError::Pattern(e));
            },
        };
        let within_view = match parse_within_view(within_view) {
            Ok(parsed) => parsed,
            Err(e) => {
                return Err(PackageCallError::Pattern(e));
            },
        };
        if self.visibility.is_some() {
            return Err(PackageCallError::File(PackageFileError::AtMostOnce));
        }
        self.visibility = Some(PackageFileVisibilityFields { visibility, within_view, inherit });
        Ok(())
    }
}

} // verus!
