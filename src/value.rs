use vstd::prelude::*;
use crate::text::chars_of;

verus! {

/// The kinds of value that a schema can ask for.
#[derive(Debug, Clone, Copy, PartialEq, Eq, Structural)]
pub enum ValueType {
    Str,
    Bool,
    Integer,
}

/// An ASCII decimal digit, `'0'` (48) to `'9'` (57).
pub open spec fn is_digit(c: char) -> bool {
    48 <= c as u32 <= 57
}

/// The number that a run of decimal digits writes.
pub open spec fn digits_value(s: Seq<char>) -> int
    decreases s.len(),
{
    if s.len() == 0 {
        0
    } else {
        digits_value(s.drop_last()) * 10 + (s.last() as u32 - 48)
    }
}

/// `s` starts with a minus sign.
pub open spec fn is_negative_text(s: Seq<char>) -> bool {
    s.len() > 0 && s[0] == '-'
}

/// `s` without its minus sign, if it has one.
pub open spec fn magnitude_text(s: Seq<char>) -> Seq<char> {
    if is_negative_text(s) {
        s.drop_first()
    } else {
        s
    }
}

/// `s` writes a signed 64-bit integer: an optional `-`, then one or more
/// decimal digits, with a value in range.
pub open spec fn is_integer_text(s: Seq<char>) -> bool {
    let neg = is_negative_text(s);
    let d = magnitude_text(s);
    &&& d.len() > 0
    &&& forall|i: int| 0 <= i < d.len() ==> is_digit(#[trigger] d[i])
    &&& if neg {
        digits_value(d) <= 9223372036854775808
    } else {
        digits_value(d) <= 9223372036854775807
    }
}

/// `s` is one of the two boolean literals.
pub open spec fn is_bool_text(s: Seq<char>) -> bool {
    s == "true"@ || s == "false"@
}

/// Whether the raw value `v` is acceptable for type `t`.
pub open spec fn value_fits(t: ValueType, v: Seq<char>) -> bool {
    match t {
        ValueType::Str => true,
        ValueType::Bool => is_bool_text(v),
        ValueType::Integer => is_integer_text(v),
    }
}

/// The name by which a schema writes each type.
pub open spec fn type_keyword(t: ValueType) -> Seq<char> {
    match t {
        ValueType::Str => "string"@,
        ValueType::Bool => "bool"@,
        ValueType::Integer => "integer"@,
    }
}

/// The type that a schema's value text names, if any.
pub open spec fn keyword_type(v: Seq<char>) -> Option<ValueType> {
    if v == type_keyword(ValueType::Str) {
        Some(ValueType::Str)
    } else if v == type_keyword(ValueType::Bool) {
        Some(ValueType::Bool)
    } else if v == type_keyword(ValueType::Integer) {
        Some(ValueType::Integer)
    } else {
        None
    }
}

proof fn lemma_digits_value_nonneg(s: Seq<char>)
    requires
        forall|i: int| 0 <= i < s.len() ==> is_digit(#[trigger] s[i]),
    ensures
        digits_value(s) >= 0,
    decreases s.len(),
{
    if s.len() > 0 {
        lemma_digits_value_nonneg(s.drop_last());
    }
}

proof fn lemma_digits_value_grows(s: Seq<char>, k: int)
    requires
        0 <= k <= s.len(),
        forall|i: int| 0 <= i < s.len() ==> is_digit(#[trigger] s[i]),
    ensures
        digits_value(s.take(k)) <= digits_value(s),
    decreases s.len(),
{
    if k < s.len() {
        lemma_digits_value_nonneg(s.drop_last());
        lemma_digits_value_grows(s.drop_last(), k);
        assert(s.drop_last().take(k) =~= s.take(k));
    } else {
        assert(s.take(k) =~= s);
    }
}

/// Whether `cs` writes a signed 64-bit integer.
fn is_integer(cs: &Vec<char>) -> (r: bool)
    ensures
        r == is_integer_text(cs@),
{
    let n = cs.len();
    if n == 0 {
        return false;
    }
    let neg = cs[0] == '-';
    let start: usize = if neg { 1 } else { 0 };
    let ghost d = magnitude_text(cs@);
    proof {
        assert(d =~= cs@.subrange(start as int, n as int));
    }
    if start == n {
        return false;
    }
    let limit: u64 = if neg { 9223372036854775808 } else { 9223372036854775807 };
    let mut acc: u64 = 0;
    let mut i: usize = start;
    while i < n
        invariant
            start <= i <= n == cs@.len(),
            n > 0,
            neg == (cs@[0] == '-'),
            start == (if neg { 1usize } else { 0usize }),
            limit == (if neg { 9223372036854775808u64 } else { 9223372036854775807u64 }),
            d == magnitude_text(cs@),
            d == cs@.subrange(start as int, n as int),
            forall|k: int| 0 <= k < i - start ==> is_digit(#[trigger] d[k]),
            acc as int == digits_value(d.take(i - start)),
            acc <= limit,
        decreases n - i,
    {
        let c = cs[i];
        proof {
            assert(d[i - start] == c);
        }
        let cu = c as u32;
        if !(48 <= cu && cu <= 57) {
            proof {
                assert(!is_digit(d[i - start]));
            }
            return false;
        }
        let v = (cu - 48) as u64;
        let ghost next = d.take(i - start + 1);
        proof {
            assert(next.drop_last() =~= d.take(i - start));
            assert(next.last() == c);
        }
        if acc > (limit - v) / 10 {
            proof {
                assert(acc * 10 + v > limit) by (nonlinear_arith)
                    requires
                        acc > (limit - v) / 10,
                        v <= 9,
                        limit >= 9,
                ;
                if forall|k: int| 0 <= k < d.len() ==> is_digit(#[trigger] d[k]) {
                    lemma_digits_value_grows(d, i - start + 1);
                }
            }
            return false;
        }
        proof {
            assert(acc * 10 + v <= limit) by (nonlinear_arith)
                requires
                    acc <= (limit - v) / 10,
                    v <= 9,
                    limit >= 9,
            ;
        }
        acc = acc * 10 + v;
        i = i + 1;
    }
    proof {
        assert(d.take(n - start) =~= d);
    }
    true
}

impl ValueType {
    /// Whether `value` is acceptable for this type.
    pub fn is_valid(&self, value: &str) -> (r: bool)
        ensures
            r == value_fits(*self, value@),
    {
        match self {
            ValueType::Str => true,
            ValueType::Bool => {
                let v = value.to_owned();
                v == String::from_str("true") || v == String::from_str("false")
            },
            ValueType::Integer => is_integer(&chars_of(value)),
        }
    }

    /// The name by which a schema writes this type.
    pub fn name(&self) -> (r: String)
        ensures
            r@ == type_keyword(*self),
    {
        match self {
            ValueType::Str => String::from_str("string"),
            ValueType::Bool => String::from_str("bool"),
            ValueType::Integer => String::from_str("integer"),
        }
    }

    /// The type that `text` names, if any.
    pub fn from_name(text: &String) -> (r: Option<ValueType>)
        ensures
            r == keyword_type(text@),
    {
        if *text == String::from_str("string") {
            Some(ValueType::Str)
        } else if *text == String::from_str("bool") {
            Some(ValueType::Bool)
        } else if *text == String::from_str("integer") {
            Some(ValueType::Integer)
        } else {
            None
        }
    }
}

} // verus!
