//! The provider that lists the execution platforms of a build.

use vstd::prelude::*;

verus! {

/// A platform that actions can run on.
pub struct ExecutionPlatform {
    pub label: String,
}

/// What is done for a target that fits no execution platform.
pub enum ExecutionPlatformFallback {
    /// The target runs on the platform of which nothing is said.
    UseUnspecifiedExec,
    /// It is an error.
    Error,
    /// The target runs on this platform.
    Platform(ExecutionPlatform),
}

/// A frozen value of the configuration language, as far as this provider
/// looks at it.
pub enum FrozenValue {
    /// The value `None`.
    NoneValue,
    Str(String),
    ExecutionPlatformInfo(ExecutionPlatform),
    List(Vec<FrozenValue>),
    /// Any other value, as it is written, and the name of its type.
    Other(String, String),
}

pub enum ExecutionPlatformRegistrationTypeError {
    /// expected a list of ExecutionPlatformInfo, got the value (of the type)
    ExpectedListOfPlatforms(String, &'static str),
    /// expected a ExecutionPlatformInfo, got the value (of the type)
    NotAPlatform(String, &'static str),
    /// expected an ExecutionPlatformInfo or one of the strings "error" or
    /// "use_unspecified", got the value (of the type)
    InvalidFallback(String, &'static str),
}

impl FrozenValue {
    /// The name of the type of the value.
    pub fn get_type(&self) -> (name: &'static str)
        ensures
            name@ == (match *self {
                FrozenValue::NoneValue => "NoneType"@,
                FrozenValue::Str(_) => "string"@,
                FrozenValue::ExecutionPlatformInfo(_) => "ExecutionPlatformInfo"@,
                FrozenValue::List(_) => "list"@,
                FrozenValue::Other(_, _) => "value"@,
            }),
    {
        match self {
            FrozenValue::NoneValue => "NoneType",
            FrozenValue::Str(_) => "string",
            FrozenValue::ExecutionPlatformInfo(_) => "ExecutionPlatformInfo",
            FrozenValue::List(_) => "list",
            FrozenValue::Other(_, _) => "value",
        }
    }

    /// The value as it is shown in a message.
    pub fn to_repr(&self) -> (repr: String)
        ensures
            repr@ == (match *self {
                FrozenValue::NoneValue => "None"@,
                FrozenValue::Str(s) => s@,
                FrozenValue::ExecutionPlatformInfo(platform) => platform.label@,
                FrozenValue::List(_) => "[...]"@,
                FrozenValue::Other(written, _) => written@,
            }),
    {
        match self {
            FrozenValue::NoneValue => String::from_str("None"),
            FrozenValue::Str(s) => s.clone(),
            FrozenValue::ExecutionPlatformInfo(platform) => platform.label.clone(),
            FrozenValue::List(_) => String::from_str("[...]"),
            FrozenValue::Other(written, _) => written.clone(),
        }
    }
}

/// Provider that gives the list of all execution platforms available for this build.
pub struct ExecutionPlatformRegistrationInfoGen<V> {
    pub platforms: V,
    pub fallback: V,
}

pub type FrozenExecutionPlatformRegistrationInfo = ExecutionPlatformRegistrationInfoGen<FrozenValue>;

/// Whether `platforms` are the platforms of the values `values`, each in its
/// place.
pub open spec fn are_platforms_of(
    values: Seq<FrozenValue>,
    platforms: Seq<ExecutionPlatform>,
) -> bool {
    &&& platforms.len() == values.len()
    &&& forall|i: int|
        0 <= i < values.len() ==> ((#[trigger] values[i]) matches FrozenValue::ExecutionPlatformInfo(
            platform,
        ) && platform.label@ == platforms[i].label@)
}

/// The first of `values` that is no platform, or their number if all are.
pub open spec fn first_other(values: Seq<FrozenValue>) -> int
    decreases values.len(),
{
    if values.len() == 0 {
        0
    } else if values[0] is ExecutionPlatformInfo {
        1 + first_other(values.drop_first())
    } else {
        0
    }
}

pub proof fn lemma_first_other(values: Seq<FrozenValue>)
    ensures
        0 <= first_other(values) <= values.len(),
        forall|i: int| 0 <= i < first_other(values) ==> (#[trigger] values[i])
            is ExecutionPlatformInfo,
        first_other(values) < values.len() ==> !(values[first_other(values)]
            is ExecutionPlatformInfo),
    decreases values.len(),
{
    if values.len() > 0 && values[0] is ExecutionPlatformInfo {
        lemma_first_other(values.drop_first());
        let p = first_other(values.drop_first());
        assert forall|i: int| 0 <= i < 1 + p implies (#[trigger] values[i])
            is ExecutionPlatformInfo by {
            if i > 0 {
                assert(values.drop_first()[i - 1] == values[i]);
            }
        }
        if 1 + p < values.len() {
            assert(values.drop_first()[p] == values[1 + p]);
        }
    }
}

impl ExecutionPlatformRegistrationInfoGen<FrozenValue> {
    /// The platforms of the build. It is an error if the value is no list,
    /// or if it lists anything but platforms; the first such item is
    /// reported.
    pub fn platforms(&self) -> (result: Result<
        Vec<ExecutionPlatform>,
        ExecutionPlatformRegistrationTypeError,
    >)
        ensures
            match self.platforms {
                FrozenValue::List(values) => {
                    let at = first_other(values@);
                    &&& at == values@.len() ==> (result matches Ok(platforms) && are_platforms_of(
                        values@,
                        platforms@,
                    ))
                    &&& at < values@.len() ==> (result matches Err(
                        ExecutionPlatformRegistrationTypeError::NotAPlatform(repr, kind),
                    ) && repr@ == repr_of(values@[at]) && kind@ == type_of(values@[at]))
                },
                other => result matches Err(
                    ExecutionPlatformRegistrationTypeError::ExpectedListOfPlatforms(repr, kind),
                ) && repr@ == repr_of(other) && kind@ == type_of(other),
            },
    {
        match &self.platforms {
            FrozenValue::List(values) => {
                let mut platforms: Vec<ExecutionPlatform> = Vec::new();
                let mut i: usize = 0;
                proof {
                    lemma_first_other(values@);
                }
                while i < values.len()
                    invariant
                        i <= values@.len(),
                        i <= first_other(values@),
                        self.platforms == FrozenValue::List(*values),
                        are_platforms_of(values@.take(i as int), platforms@),
                    decreases values@.len() - i,
                {
                    proof {
                        lemma_first_other(values@);
                    }
                    match &values[i] {
                        FrozenValue::ExecutionPlatformInfo(platform) => {
                            platforms.push(ExecutionPlatform { label: platform.label.clone() });
                            proof {
                                let v = values@.take(i + 1);
                                assert forall|k: int| 0 <= k < v.len() implies ((
                                #[trigger] v[k]) matches FrozenValue::ExecutionPlatformInfo(p)
                                    && p.label@ == platforms@[k].label@) by {
                                    if k < i {
                                        assert(values@.take(i as int)[k] == v[k]);
                                    }
                                }
                                if i + 1 > first_other(values@) {
                                    assert(false);
                                }
                            }
                        },
                        v => {
                            proof {
                                lemma_first_other(values@);
                                assert(!(values@[i as int] is ExecutionPlatformInfo));
                                if i < first_other(values@) {
                                    assert(values@[i as int] is ExecutionPlatformInfo);
                                }
                            }
                            return Err(
                                ExecutionPlatformRegistrationTypeError::NotAPlatform(
                                    v.to_repr(),
                                    v.get_type(),
                                ),
                            );
                        },
                    }
                    i = i + 1;
                }
                proof {
                    assert(values@.take(i as int) =~= values@);
                    lemma_first_other(values@);
                }
                Ok(platforms)
            },
            other => Err(
                ExecutionPlatformRegistrationTypeError::ExpectedListOfPlatforms(
                    other.to_repr(),
                    other.get_type(),
                ),
            ),
        }
    }

    /// What is done for a target that fits no execution platform: nothing is
    /// said of its platform if the value is none or the string
    /// `use_unspecified`, it is an error if the value is the string `error`,
    /// and it runs on the platform if the value is one. Any other value is a
    /// mistake.
    pub fn fallback(&self) -> (result: Result<
        ExecutionPlatformFallback,
        ExecutionPlatformRegistrationTypeError,
    >)
        ensures
            match self.fallback {
                FrozenValue::NoneValue => result matches Ok(
                    ExecutionPlatformFallback::UseUnspecifiedExec,
                ),
                FrozenValue::ExecutionPlatformInfo(platform) => result matches Ok(
                    ExecutionPlatformFallback::Platform(p),
                ) && p.label@ == platform.label@,
                FrozenValue::Str(s) => if s@ == "error"@ {
                    result matches Ok(ExecutionPlatformFallback::Error)
                } else if s@ == "use_unspecified"@ {
                    result matches Ok(ExecutionPlatformFallback::UseUnspecifiedExec)
                } else {
                    result matches Err(
                        ExecutionPlatformRegistrationTypeError::InvalidFallback(repr, kind),
                    ) && repr@ == s@ && kind@ == "string"@
                },
                other => result matches Err(
                    ExecutionPlatformRegistrationTypeError::InvalidFallback(repr, kind),
                ) && repr@ == repr_of(other) && kind@ == type_of(other),
            },
    {
        match &self.fallback {
            FrozenValue::NoneValue => Ok(ExecutionPlatformFallback::UseUnspecifiedExec),
            FrozenValue::ExecutionPlatformInfo(platform) => Ok(
                ExecutionPlatformFallback::Platform(
                    ExecutionPlatform { label: platform.label.clone() },
                ),
            ),
            FrozenValue::Str(s) => {
                if *s == String::from_str("error") {
                    Ok(ExecutionPlatformFallback::Error)
                } else if *s == String::from_str("use_unspecified") {
                    Ok(ExecutionPlatformFallback::UseUnspecifiedExec)
                } else {
                    Err(
                        ExecutionPlatformRegistrationTypeError::InvalidFallback(
                            s.clone(),
                            "string",
                        ),
                    )
                }
            },
            other => Err(
                ExecutionPlatformRegistrationTypeError::InvalidFallback(
                    other.to_repr(),
                    other.get_type(),
                ),
            ),
        }
    }
}

/// The value as it is shown in a message.
pub open spec fn repr_of(value: FrozenValue) -> Seq<char> {
    match value {
        FrozenValue::NoneValue => "None"@,
        FrozenValue::Str(s) => s@,
        FrozenValue::ExecutionPlatformInfo(platform) => platform.label@,
        FrozenValue::List(_) => "[...]"@,
        FrozenValue::Other(written, _) => written@,
    }
}

/// The name of the type of the value.
pub open spec fn type_of(value: FrozenValue) -> Seq<char> {
    match value {
        FrozenValue::NoneValue => "NoneType"@,
        FrozenValue::Str(_) => "string"@,
        FrozenValue::ExecutionPlatformInfo(_) => "ExecutionPlatformInfo"@,
        FrozenValue::List(_) => "list"@,
        FrozenValue::Other(_, _) => "value"@,
    }
}

/// Makes the provider from what a rule hands in: the platforms, and the
/// fallback, which is none where the rule gives none.
pub fn info_creator(
    platforms: FrozenValue,
    fallback: Option<FrozenValue>,
) -> (info: FrozenExecutionPlatformRegistrationInfo)
    ensures
        info.platforms == platforms,
        info.fallback == (match fallback {
            Some(value) => value,
            None => FrozenValue::NoneValue,
        }),
{
    ExecutionPlatformRegistrationInfoGen {
        platforms,
        fallback: match fallback {
            Some(value) => value,
            None => FrozenValue::NoneValue,
        },
    }
}

} // verus!
