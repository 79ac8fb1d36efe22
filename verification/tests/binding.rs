//! Whole-record binding through the `Decouple` interface: every field
//! is resolved with no default from the upper-cased field name, and
//! the first failing field fails the record.

use rust_decouple::env::EnvVars;
use rust_decouple::resolve::Environment;
use rust_decouple::resolve::FromEnvironmentError;
use rust_decouple::resolve::VecEnvironment;
use rust_decouple::traits::env_var_name;
use rust_decouple::traits::Decouple;

struct SimpleRecord {
    test_simple_struct_env: u8,
}

impl Decouple for SimpleRecord {
    type Error = FromEnvironmentError;

    fn parse(env: &EnvVars) -> Result<Self, Self::Error> {
        Ok(SimpleRecord {
            test_simple_struct_env: Environment::from(
                env,
                env_var_name("test_simple_struct_env").as_str(),
                None,
            )?,
        })
    }
}

struct MissingRecord {
    _test_non_existing_env_var: u8,
}

impl Decouple for MissingRecord {
    type Error = FromEnvironmentError;

    fn parse(env: &EnvVars) -> Result<Self, Self::Error> {
        Ok(MissingRecord {
            _test_non_existing_env_var: Environment::from(
                env,
                env_var_name("_test_non_existing_env_var").as_str(),
                None,
            )?,
        })
    }
}

struct VecRecord {
    vec_string_env: Vec<String>,
}

impl Decouple for VecRecord {
    type Error = FromEnvironmentError;

    fn parse(env: &EnvVars) -> Result<Self, Self::Error> {
        Ok(VecRecord {
            vec_string_env: VecEnvironment::from(
                env,
                env_var_name("vec_string_env").as_str(),
                None,
            )?,
        })
    }
}

struct CountRecord {
    count_max: u8,
    hosts: Vec<String>,
}

impl Decouple for CountRecord {
    type Error = FromEnvironmentError;

    fn parse(env: &EnvVars) -> Result<Self, Self::Error> {
        Ok(CountRecord {
            count_max: Environment::from(env, env_var_name("countMax").as_str(), None)?,
            hosts: VecEnvironment::from(env, env_var_name("hosts").as_str(), None)?,
        })
    }
}

#[test]
fn test_simple_struct_derive() {
    let mut env = EnvVars::new();
    env.set("TEST_SIMPLE_STRUCT_ENV", "8");
    let result = SimpleRecord::parse(&env);
    assert!(result.is_ok_and(|v| v.test_simple_struct_env == 8))
}

#[test]
fn test_simple_struct_derive_fails() {
    let env = EnvVars::new();
    let result = MissingRecord::parse(&env);
    assert!(result.is_err())
}

#[test]
fn test_vector_env_var_in_struct() {
    let mut env = EnvVars::new();
    env.set("VEC_STRING_ENV", "test_1,test_2");
    let result = VecRecord::parse(&env);
    assert!(result.is_ok_and(|r| r.vec_string_env == vec!["test_1".to_owned(), "test_2".to_owned()]))
}

#[test]
fn env_var_name_upper_cases_without_separators() {
    assert_eq!(env_var_name("countMax").as_str(), "COUNTMAX");
    assert_eq!(env_var_name("fooBar").as_str(), "FOOBAR");
    assert_eq!(env_var_name("vec_string_env").as_str(), "VEC_STRING_ENV");
    assert_eq!(env_var_name("_leading9").as_str(), "_LEADING9");
}

#[test]
fn count_max_binds_from_upper_cased_name() {
    let mut env = EnvVars::new();
    env.set("COUNTMAX", "8");
    env.set("HOSTS", "a,b");
    let result = CountRecord::parse(&env).unwrap();
    assert_eq!(result.count_max, 8);
    assert_eq!(result.hosts, vec!["a".to_owned(), "b".to_owned()]);
}

#[test]
fn count_max_unset_fails_with_variable_missing() {
    let mut env = EnvVars::new();
    env.set("HOSTS", "a,b");
    let result = CountRecord::parse(&env);
    assert!(result.is_err_and(
        |e| e == FromEnvironmentError::VariableNotFoundError("COUNTMAX".to_string())
    ))
}

#[test]
fn binding_fails_fast_on_the_first_bad_field() {
    let mut env = EnvVars::new();
    env.set("COUNTMAX", "not-a-number");
    let result = CountRecord::parse(&env);
    assert!(result.is_err_and(|e| e
        == FromEnvironmentError::ParseVariableError(
            "COUNTMAX".to_string(),
            "not-a-number".to_string()
        )))
}

#[test]
fn hosts_bind_in_order() {
    let mut env = EnvVars::new();
    env.set("COUNTMAX", "1");
    env.set("HOSTS", "primary,secondary");
    let result = CountRecord::parse(&env).unwrap();
    assert_eq!(result.hosts, vec!["primary".to_owned(), "secondary".to_owned()]);
}
