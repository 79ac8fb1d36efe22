//! The scalar and list resolvers: look a variable up in an
//! environment table, apply the default policy, and parse the raw
//! value into the target type.

use vstd::prelude::*;

use crate::env::EnvVars;
use crate::parse::EnvParse;
use crate::text::split_commas;
use crate::text::split_on_commas;
use crate::text::views_of;

verus! {

/// Marker for the scalar resolver.
pub struct Environment;

/// Marker for the list resolver.
pub struct VecEnvironment;

/// Why a resolution failed: the variable was absent and no default was
/// supplied, or its raw value did not parse as the target type.
#[derive(Debug, PartialEq)]
pub enum FromEnvironmentError {
    VariableNotFoundError(String),
    ParseVariableError(String, String),
}

/// The abstract form of a resolution error, over character sequences.
pub enum EnvErrorModel {
    VariableNotFound { name: Seq<char> },
    ParseVariable { name: Seq<char>, raw: Seq<char> },
}

impl View for FromEnvironmentError {
    type V = EnvErrorModel;

    open spec fn view(&self) -> EnvErrorModel {
        match self {
            FromEnvironmentError::VariableNotFoundError(name) => EnvErrorModel::VariableNotFound {
                name: name@,
            },
            FromEnvironmentError::ParseVariableError(name, raw) => EnvErrorModel::ParseVariable {
                name: name@,
                raw: raw@,
            },
        }
    }
}

/// The outcome a scalar resolution must have: an absent variable falls
/// back to the default or fails as not found, a present one is parsed
/// and the default is ignored.
pub open spec fn scalar_resolution<T: EnvParse>(
    env: Map<Seq<char>, Seq<char>>,
    name: Seq<char>,
    default: Option<T>,
) -> Result<T::V, EnvErrorModel> {
    if env.contains_key(name) {
        if T::parses(env[name]) {
            Ok(T::parse_model(env[name]))
        } else {
            Err(EnvErrorModel::ParseVariable { name, raw: env[name] })
        }
    } else {
        match default {
            Some(d) => Ok(d@),
            None => Err(EnvErrorModel::VariableNotFound { name }),
        }
    }
}

/// The abstract values of the pieces, if every piece parses; `None` as
/// soon as any piece does not.
pub open spec fn parsed_pieces<T: EnvParse>(pieces: Seq<Seq<char>>) -> Option<Seq<T::V>>
    decreases pieces.len(),
{
    if pieces.len() == 0 {
        Some(Seq::<T::V>::empty())
    } else {
        match parsed_pieces::<T>(pieces.drop_last()) {
            Some(rest) => if T::parses(pieces.last()) {
                Some(rest.push(T::parse_model(pieces.last())))
            } else {
                None
            },
            None => None,
        }
    }
}

/// The outcome a list resolution must have: absence is handled as for
/// a scalar; a present raw value is split on commas and every piece
/// must parse, else the whole resolution fails with the unsplit raw
/// value.
pub open spec fn list_resolution<T: EnvParse>(
    env: Map<Seq<char>, Seq<char>>,
    name: Seq<char>,
    default: Option<Vec<T>>,
) -> Result<Seq<T::V>, EnvErrorModel> {
    if env.contains_key(name) {
        match parsed_pieces::<T>(split_commas(env[name])) {
            Some(values) => Ok(values),
            None => Err(EnvErrorModel::ParseVariable { name, raw: env[name] }),
        }
    } else {
        match default {
            Some(d) => Ok(d@.map_values(|t: T| t@)),
            None => Err(EnvErrorModel::VariableNotFound { name }),
        }
    }
}

/// A scalar outcome, abstracted value-wise.
pub open spec fn scalar_model<T: View>(r: Result<T, FromEnvironmentError>) -> Result<
    T::V,
    EnvErrorModel,
> {
    match r {
        Ok(v) => Ok(v@),
        Err(e) => Err(e@),
    }
}

/// A list outcome, abstracted element-wise.
pub open spec fn list_model<T: View>(r: Result<Vec<T>, FromEnvironmentError>) -> Result<
    Seq<T::V>,
    EnvErrorModel,
> {
    match r {
        Ok(v) => Ok(v@.map_values(|t: T| t@)),
        Err(e) => Err(e@),
    }
}

impl Environment {
    /// Resolves the variable `var_name` of `env` as a `T`, falling
    /// back to `default` only when the variable is absent.
    pub fn from<T: EnvParse>(env: &EnvVars, var_name: &str, default: Option<T>) -> (r: Result<
        T,
        FromEnvironmentError,
    >)
        ensures
            scalar_model(r) == scalar_resolution::<T>(env@, var_name@, default),
            !env@.contains_key(var_name@) ==> (default matches Some(d) ==> r == Ok::<
                T,
                FromEnvironmentError,
            >(d)),
    {
        match env.get(var_name) {
            None => match default {
                Some(d) => Ok(d),
                None => Err(FromEnvironmentError::VariableNotFoundError(var_name.to_owned())),
            },
            Some(raw) => match T::parse_env(raw.as_str()) {
                Some(v) => Ok(v),
                None => Err(FromEnvironmentError::ParseVariableError(var_name.to_owned(), raw)),
            },
        }
    }
}

impl VecEnvironment {
    /// Resolves the variable `var_name` of `env` as a list of `T`:
    /// the raw value is split on commas and every piece is parsed,
    /// in order; `default` is used only when the variable is absent.
    /// An empty raw value splits to one empty piece, so it resolves
    /// only for target types that accept an empty string.
    pub fn from<T: EnvParse>(env: &EnvVars, var_name: &str, default: Option<Vec<T>>) -> (r: Result<
        Vec<T>,
        FromEnvironmentError,
    >)
        ensures
            list_model(r) == list_resolution::<T>(env@, var_name@, default),
            !env@.contains_key(var_name@) ==> (default matches Some(d) ==> r == Ok::<
                Vec<T>,
                FromEnvironmentError,
            >(d)),
    {
        match env.get(var_name) {
            None => match default {
                Some(d) => Ok(d),
                None => Err(FromEnvironmentError::VariableNotFoundError(var_name.to_owned())),
            },
            Some(raw) => {
                let pieces = split_on_commas(raw.as_str());
                let mut values: Vec<T> = Vec::new();
                let mut i: usize = 0;
                proof {
                    assert(views_of(pieces@).take(0) =~= Seq::<Seq<char>>::empty());
                    assert(values@.map_values(|t: T| t@) =~= Seq::<T::V>::empty());
                }
                while i < pieces.len()
                    invariant
                        i <= pieces@.len(),
                        views_of(pieces@) == split_commas(raw@),
                        raw@ == env@[var_name@],
                        env@.contains_key(var_name@),
                        parsed_pieces::<T>(views_of(pieces@).take(i as int)) == Some(
                            values@.map_values(|t: T| t@),
                        ),
                    decreases pieces@.len() - i,
                {
                    proof {
                        assert(views_of(pieces@).take(i + 1).drop_last() =~= views_of(
                            pieces@,
                        ).take(i as int));
                        assert(views_of(pieces@).take(i + 1).last() == pieces@[i as int]@);
                    }
                    match T::parse_env(pieces[i].as_str()) {
                        Some(v) => {
                            let ghost prev = values@;
                            values.push(v);
                            proof {
                                assert(values@.map_values(|t: T| t@) =~= prev.map_values(
                                    |t: T| t@,
                                ).push(T::parse_model(pieces@[i as int]@)));
                            }
                        },
                        None => {
                            proof {
                                lemma_failed_piece_fails_all::<T>(views_of(pieces@), i as int);
                            }
                            return Err(
                                FromEnvironmentError::ParseVariableError(var_name.to_owned(), raw),
                            );
                        },
                    }
                    i += 1;
                }
                proof {
                    assert(views_of(pieces@).take(pieces@.len() as int) =~= views_of(pieces@));
                }
                Ok(values)
            },
        }
    }
}

/// One unparseable piece fails the whole list.
proof fn lemma_failed_piece_fails_all<T: EnvParse>(pieces: Seq<Seq<char>>, bad: int)
    requires
        0 <= bad < pieces.len(),
        !T::parses(pieces[bad]),
    ensures
        parsed_pieces::<T>(pieces) is None,
    decreases pieces.len(),
{
    if bad == pieces.len() - 1 {
    } else {
        lemma_failed_piece_fails_all::<T>(pieces.drop_last(), bad);
    }
}

/// When the variable is set, the scalar outcome does not depend on the
/// default at all.
pub proof fn lemma_scalar_default_ignored_when_set<T: EnvParse>(
    env: Map<Seq<char>, Seq<char>>,
    name: Seq<char>,
    d1: Option<T>,
    d2: Option<T>,
)
    requires
        env.contains_key(name),
    ensures
        scalar_resolution::<T>(env, name, d1) == scalar_resolution::<T>(env, name, d2),
{
}

/// When the variable is set, the list outcome does not depend on the
/// default at all.
pub proof fn lemma_list_default_ignored_when_set<T: EnvParse>(
    env: Map<Seq<char>, Seq<char>>,
    name: Seq<char>,
    d1: Option<Vec<T>>,
    d2: Option<Vec<T>>,
)
    requires
        env.contains_key(name),
    ensures
        list_resolution::<T>(env, name, d1) == list_resolution::<T>(env, name, d2),
{
}

/// A list parses as a whole exactly when every piece parses, and then
/// the values correspond to the pieces position by position.
pub proof fn lemma_list_all_or_nothing<T: EnvParse>(pieces: Seq<Seq<char>>)
    ensures
        (parsed_pieces::<T>(pieces) is Some) <==> (forall|i: int|
            0 <= i < pieces.len() ==> T::parses(pieces[i])),
        parsed_pieces::<T>(pieces) matches Some(values) ==> values.len() == pieces.len()
            && (forall|i: int| 0 <= i < pieces.len() ==> values[i] == T::parse_model(pieces[i])),
    decreases pieces.len(),
{
    if pieces.len() > 0 {
        lemma_list_all_or_nothing::<T>(pieces.drop_last());
        if (forall|i: int| 0 <= i < pieces.len() ==> T::parses(pieces[i])) {
            assert(forall|i: int|
                0 <= i < pieces.drop_last().len() ==> T::parses(pieces.drop_last()[i]));
        }
        if parsed_pieces::<T>(pieces.drop_last()) is Some {
            if T::parses(pieces.last()) {
                assert(forall|i: int|
                    0 <= i < pieces.len() ==> T::parses(pieces[i])) by {
                    assert(forall|i: int|
                        0 <= i < pieces.len() - 1 ==> pieces.drop_last()[i] == pieces[i]);
                }
            }
        } else {
            let bad = choose|i: int|
                0 <= i < pieces.drop_last().len() && !T::parses(pieces.drop_last()[i]);
            assert(!T::parses(pieces[bad]));
        }
    }
}

} // verus!
