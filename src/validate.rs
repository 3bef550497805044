use vstd::prelude::*;
use crate::config::Config;
use crate::error::ValidationError;
use crate::schema::Schema;
use crate::value::{type_keyword, value_fits, ValueType};

verus! {

/// Key `k` is a discrepancy between configuration `c` and schema `s`: declared
/// but absent, present with a value that its type refuses, or present but not
/// declared.
pub open spec fn has_issue(c: Map<Seq<char>, Seq<char>>, s: Map<Seq<char>, ValueType>, k: Seq<char>) -> bool {
    ||| s.contains_key(k) && !c.contains_key(k)
    ||| s.contains_key(k) && c.contains_key(k) && !value_fits(s[k], c[k])
    ||| c.contains_key(k) && !s.contains_key(k)
}

/// Configuration `c` has every key that schema `s` declares, each with a value
/// of its type, and no other key.
pub open spec fn conforms(c: Map<Seq<char>, Seq<char>>, s: Map<Seq<char>, ValueType>) -> bool {
    forall|k: Seq<char>| !#[trigger] has_issue(c, s, k)
}

/// A configuration whose keys are exactly the schema's keys, each holding a
/// value of its declared type, conforms to the schema, so `validate` succeeds.
pub proof fn lemma_matching_config_conforms(c: Map<Seq<char>, Seq<char>>, s: Map<Seq<char>, ValueType>)
    requires
        c.dom() == s.dom(),
        forall|k: Seq<char>| #[trigger] s.contains_key(k) ==> value_fits(s[k], c[k]),
    ensures
        conforms(c, s),
{
    assert forall|k: Seq<char>| !#[trigger] has_issue(c, s, k) by {
        if s.contains_key(k) {
            assert(c.contains_key(k));
        } else {
            assert(!c.contains_key(k));
        }
    }
}

/// `e` truly describes a discrepancy between `c` and `s`.
pub open spec fn reports(c: Map<Seq<char>, Seq<char>>, s: Map<Seq<char>, ValueType>, e: ValidationError) -> bool {
    match e {
        ValidationError::TypeMismatch { key, expected, got } => {
            &&& s.contains_key(key@)
            &&& c.contains_key(key@)
            &&& !value_fits(s[key@], c[key@])
            &&& expected@ == type_keyword(s[key@])
            &&& got@ == c[key@]
        },
        ValidationError::MissingKey { key } => s.contains_key(key@) && !c.contains_key(key@),
        ValidationError::UnknownKey { key } => c.contains_key(key@) && !s.contains_key(key@),
    }
}

/// Compares `config` with `schema`. Succeeds when they agree; else returns every
/// discrepancy, one error per key: first those of the schema's keys, in the
/// schema's order, then the undeclared keys, in the configuration's order.
pub fn validate(config: &Config, schema: &Schema) -> (r: Result<(), Vec<ValidationError>>)
    requires
        config.wf(),
        schema.wf(),
    ensures
        r is Ok <==> conforms(config@, schema@),
        r matches Err(errs) ==> forall|i: int|
            0 <= i < errs@.len() ==> reports(config@, schema@, #[trigger] errs@[i]),
        r matches Err(errs) ==> forall|k: Seq<char>| #[trigger]
            has_issue(config@, schema@, k) ==> exists|i: int|
                0 <= i < errs@.len() && (#[trigger] errs@[i]).key_view() == k,
        r matches Err(errs) ==> forall|i: int, j: int|
            0 <= i < j < errs@.len() ==> errs@[i].key_view() != errs@[j].key_view(),
{
    let ghost c = config@;
    let ghost s = schema@;
    let mut errors: Vec<ValidationError> = Vec::new();
    let mut i: usize = 0;
    while i < schema.entries.len()
        invariant
            config.wf(),
            schema.wf(),
            c == config@,
            s == schema@,
            i <= schema.entries@.len(),
            forall|a: int| 0 <= a < errors@.len() ==> reports(c, s, #[trigger] errors@[a]),
            forall|a: int|
                0 <= a < errors@.len() ==> exists|j: int|
                    0 <= j < i && (#[trigger] errors@[a]).key_view() == schema.entries@[j].0@,
            forall|a: int, b: int|
                0 <= a < b < errors@.len() ==> errors@[a].key_view() != errors@[b].key_view(),
            forall|j: int|
                0 <= j < i && #[trigger] has_issue(c, s, schema.entries@[j].0@) ==> exists|a: int|
                    0 <= a < errors@.len() && (#[trigger] errors@[a]).key_view()
                        == schema.entries@[j].0@,
        decreases schema.entries@.len() - i,
    {
        let key = &schema.entries[i].0;
        let t = schema.entries[i].1;
        proof {
            assert(s.contains_key(key@));
        }
        let ghost before = errors@;
        match config.get(key.as_str()) {
            Some(value) => {
                if !t.is_valid(value) {
                    errors.push(
                        ValidationError::TypeMismatch {
                            key: key.clone(),
                            expected: t.name(),
                            got: value.to_owned(),
                        },
                    );
                }
            },
            None => {
                errors.push(ValidationError::MissingKey { key: key.clone() });
            },
        }
        proof {
            assert forall|a: int| 0 <= a < before.len() implies errors@[a] == before[a] by {}
            assert forall|a: int, b: int|
                0 <= a < b < errors@.len() implies errors@[a].key_view() != errors@[b].key_view() by {
                if b == before.len() {
                    let j = choose|j: int|
                        0 <= j < i && before[a].key_view() == schema.entries@[j].0@;
                    assert(errors@[a] == before[a]);
                }
            }
        }
            assert forall|j: int|
                0 <= j <= i && #[trigger] has_issue(c, s, schema.entries@[j].0@) implies exists|a: int|
                    0 <= a < errors@.len() && (#[trigger] errors@[a]).key_view()
                        == schema.entries@[j].0@ by {
                if j < i {
                    let a = choose|a: int|
                        0 <= a < before.len() && (#[trigger] before[a]).key_view()
                            == schema.entries@[j].0@;
                    assert(errors@[a] == before[a]);
                } else {
                    assert(errors@[before.len() as int].key_view() == key@);
                }
            }
        i = i + 1;
    }
    let ghost n1 = errors@.len();
    let mut i: usize = 0;
    while i < config.entries.len()
        invariant
            config.wf(),
            schema.wf(),
            c == config@,
            s == schema@,
            n1 <= errors@.len(),
            i <= config.entries@.len(),
            forall|a: int| 0 <= a < errors@.len() ==> reports(c, s, #[trigger] errors@[a]),
            forall|a: int|
                0 <= a < errors@.len() ==> s.contains_key((#[trigger] errors@[a]).key_view())
                    || exists|j: int|
                    0 <= j < i && errors@[a].key_view() == config.entries@[j].0@,
            forall|a: int, b: int|
                0 <= a < b < errors@.len() ==> errors@[a].key_view() != errors@[b].key_view(),
            forall|j: int|
                0 <= j < schema.entries@.len() && #[trigger] has_issue(c, s, schema.entries@[j].0@)
                    ==> exists|a: int|
                    0 <= a < errors@.len() && (#[trigger] errors@[a]).key_view()
                        == schema.entries@[j].0@,
            forall|j: int|
                0 <= j < i && #[trigger] has_issue(c, s, config.entries@[j].0@)
                    && !s.contains_key(config.entries@[j].0@) ==> exists|a: int|
                    0 <= a < errors@.len() && (#[trigger] errors@[a]).key_view()
                        == config.entries@[j].0@,
        decreases config.entries@.len() - i,
    {
        let key = &config.entries[i].0;
        proof {
            assert(c.contains_key(key@));
        }
        let ghost before = errors@;
        if schema.find(key).is_none() {
            errors.push(ValidationError::UnknownKey { key: key.clone() });
        }
        proof {
            assert forall|a: int| 0 <= a < before.len() implies errors@[a] == before[a] by {}
            assert forall|a: int, b: int|
                0 <= a < b < errors@.len() implies errors@[a].key_view() != errors@[b].key_view() by {
                if b == before.len() {
                    assert(errors@[a] == before[a]);
                    if !s.contains_key(before[a].key_view()) {
                        let j = choose|j: int|
                            0 <= j < i && before[a].key_view() == config.entries@[j].0@;
                    }
                }
            }
        }
            assert forall|j: int|
                0 <= j < schema.entries@.len() && #[trigger] has_issue(c, s, schema.entries@[j].0@)
                    implies exists|a: int|
                    0 <= a < errors@.len() && (#[trigger] errors@[a]).key_view()
                        == schema.entries@[j].0@ by {
                let a = choose|a: int|
                    0 <= a < before.len() && (#[trigger] before[a]).key_view()
                        == schema.entries@[j].0@;
                assert(errors@[a] == before[a]);
            }
            assert forall|j: int|
                0 <= j <= i && #[trigger] has_issue(c, s, config.entries@[j].0@)
                    && !s.contains_key(config.entries@[j].0@) implies exists|a: int|
                    0 <= a < errors@.len() && (#[trigger] errors@[a]).key_view()
                        == config.entries@[j].0@ by {
                if j < i {
                    let a = choose|a: int|
                        0 <= a < before.len() && (#[trigger] before[a]).key_view()
                            == config.entries@[j].0@;
                    assert(errors@[a] == before[a]);
                } else {
                    assert(errors@[before.len() as int].key_view() == key@);
                }
            }
        i = i + 1;
    }
    proof {
        assert forall|k: Seq<char>| #[trigger] has_issue(c, s, k) implies exists|a: int|
            0 <= a < errors@.len() && (#[trigger] errors@[a]).key_view() == k by {
            if s.contains_key(k) {
                let j = choose|j: int|
                    0 <= j < schema.entries@.len() && schema.entries@[j].0@ == k;
                assert(has_issue(c, s, schema.entries@[j].0@));
            } else {
                let j = choose|j: int|
                    0 <= j < config.entries@.len() && config.entries@[j].0@ == k;
                assert(has_issue(c, s, config.entries@[j].0@));
            }
        }
    }
    if errors.len() == 0 {
        proof {
            assert forall|k: Seq<char>| !#[trigger] has_issue(c, s, k) by {
                if has_issue(c, s, k) {
                    let a = choose|a: int|
                        0 <= a < errors@.len() && (#[trigger] errors@[a]).key_view() == k;
                }
            }
            assert(conforms(config@, schema@));
        }
        Ok(())
    } else {
        proof {
            assert(reports(c, s, errors@[0]));
            assert(has_issue(c, s, errors@[0].key_view()));
        }
        let r = Err(errors);
        proof {
            assert forall|k: Seq<char>| #[trigger] has_issue(config@, schema@, k) implies exists|a: int|
                0 <= a < r->Err_0@.len() && (#[trigger] r->Err_0@[a]).key_view() == k by {
                assert(has_issue(c, s, k));
                let a = choose|a: int|
                    0 <= a < errors@.len() && (#[trigger] errors@[a]).key_view() == k;
                assert(r->Err_0@[a] == errors@[a]);
            }
        }
        r
    }
}

} // verus!
