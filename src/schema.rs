use vstd::prelude::*;
use crate::error::ParseError;
use crate::token::{all_lines_valid, invalid_line_error, line_kinds, LineKind, Token, Tokens};
use crate::value::{keyword_type, ValueType};

verus! {

/// A key-value line whose value names no type.
pub open spec fn names_no_type(t: LineKind) -> bool {
    match t {
        LineKind::KeyValue { value, .. } => keyword_type(value) is None,
        _ => false,
    }
}

/// Every key-value line among `ts` names a type.
pub open spec fn all_types_known(ts: Seq<LineKind>) -> bool {
    forall|i: int| 0 <= i < ts.len() ==> !names_no_type(#[trigger] ts[i])
}

/// Line `k` (0-based) is the first key-value line among `ts` that names no type.
pub open spec fn first_unknown_type(ts: Seq<LineKind>, k: int) -> bool {
    &&& 0 <= k < ts.len()
    &&& names_no_type(ts[k])
    &&& forall|j: int| 0 <= j < k ==> !names_no_type(#[trigger] ts[j])
}

/// The key-to-type pairs that a run of lines declares, later lines overriding earlier ones.
pub open spec fn schema_map(ts: Seq<LineKind>) -> Map<Seq<char>, ValueType>
    decreases ts.len(),
{
    if ts.len() == 0 {
        Map::empty()
    } else {
        let m = schema_map(ts.drop_last());
        match ts.last() {
            LineKind::KeyValue { key, value, .. } => match keyword_type(value) {
                Some(t) => m.insert(key, t),
                None => m,
            },
            _ => m,
        }
    }
}

/// The schema that the text `s` declares.
pub open spec fn schema_of(s: Seq<char>) -> Map<Seq<char>, ValueType> {
    schema_map(line_kinds(s))
}

/// What schema parsing reports for `s`, once every line is valid, when some
/// key-value line names no type.
pub open spec fn unknown_type_error(s: Seq<char>, e: ParseError) -> bool {
    match e {
        ParseError::InvalidType { line_number, name } => {
            &&& first_unknown_type(line_kinds(s), line_number - 1)
            &&& line_kinds(s)[line_number - 1] matches LineKind::KeyValue { value, .. }
            &&& name@ == value
        },
        ParseError::InvalidLine { .. } => false,
    }
}

/// A parsed schema: a map from key to the type that its value must have.
pub struct Schema {
    pub(crate) entries: Vec<(String, ValueType)>,
    pub(crate) model: Ghost<Map<Seq<char>, ValueType>>,
}

impl View for Schema {
    type V = Map<Seq<char>, ValueType>;

    open(crate) spec fn view(&self) -> Map<Seq<char>, ValueType> {
        self.model@
    }
}

impl Schema {
    /// Keys are unique among the entries, and the entries are exactly the map.
    pub open(crate) spec fn wf(&self) -> bool {
        &&& forall|i: int, j: int|
            0 <= i < j < self.entries@.len() ==> self.entries@[i].0@ != self.entries@[j].0@
        &&& forall|i: int|
            0 <= i < self.entries@.len() ==> {
                &&& #[trigger] self@.contains_key(self.entries@[i].0@)
                &&& self@[self.entries@[i].0@] == self.entries@[i].1
            }
        &&& forall|k: Seq<char>|
            #[trigger] self@.contains_key(k) ==> exists|i: int|
                0 <= i < self.entries@.len() && self.entries@[i].0@ == k
    }

    /// Reads `content` line by line; each key-value line declares its key with the
    /// type that its value names (`string`, `bool` or `integer`), later lines
    /// overriding earlier ones. Fails on the first line that is neither blank, nor
    /// a comment, nor holds a `=`; else on the first key-value line whose value
    /// names no type, reported with that line's 1-based number.
    pub fn parse(content: &str) -> (r: Result<Schema, ParseError>)
        ensures
            match r {
                Ok(sc) => {
                    &&& all_lines_valid(content@)
                    &&& all_types_known(line_kinds(content@))
                    &&& sc.wf()
                    &&& sc@ == schema_of(content@)
                },
                Err(e) => invalid_line_error(content@, e) || (all_lines_valid(content@)
                    && unknown_type_error(content@, e)),
            },
    {
        let parsed = match Tokens::parse(content) {
            Ok(t) => t,
            Err(e) => {
                return Err(e);
            },
        };
        let ghost kinds = line_kinds(content@);
        let tokens = &parsed.tokens;
        proof {
            assert(kinds.len() == tokens@.len());
        }
        let mut sc = Schema::empty();
        let mut i: usize = 0;
        while i < tokens.len()
            invariant
                all_lines_valid(content@),
                kinds == line_kinds(content@),
                tokens@.map_values(|x: Token| x@) == kinds,
                i <= tokens@.len(),
                forall|j: int| 0 <= j < i ==> !names_no_type(#[trigger] kinds[j]),
                sc.wf(),
                sc@ == schema_map(kinds.take(i as int)),
            decreases tokens@.len() - i,
        {
            proof {
                assert(kinds.take(i + 1).drop_last() =~= kinds.take(i as int));
                assert(kinds[i as int] == tokens@[i as int]@);
            }
            match &tokens[i] {
                Token::KeyValue { key, value, .. } => {
                    match ValueType::from_name(value) {
                        Some(t) => {
                            sc.insert(key.clone(), t);
                        },
                        None => {
                            return Err(
                                ParseError::InvalidType {
                                    line_number: i + 1,
                                    name: value.clone(),
                                },
                            );
                        },
                    }
                },
                _ => {},
            }
            i = i + 1;
        }
        proof {
            assert(kinds.take(i as int) =~= kinds);
        }
        Ok(sc)
    }

    /// Number of keys.
    pub fn len(&self) -> (r: usize)
        requires
            self.wf(),
        ensures
            r == self@.dom().len(),
    {
        proof {
            let keys = self.entries@.map_values(|e: (String, ValueType)| e.0@);
            assert(keys.no_duplicates());
            assert(keys.to_set() =~= self@.dom()) by {
                assert forall|k: Seq<char>| self@.contains_key(k) implies keys.to_set().contains(k) by {
                    let i = choose|i: int| 0 <= i < self.entries@.len() && self.entries@[i].0@ == k;
                    assert(keys[i] == k);
                }
                assert forall|k: Seq<char>| keys.to_set().contains(k) implies self@.contains_key(k) by {
                    let i = choose|i: int| 0 <= i < keys.len() && keys[i] == k;
                    assert(self@.contains_key(self.entries@[i].0@));
                }
            }
            keys.unique_seq_to_set();
        }
        self.entries.len()
    }

    fn empty() -> (r: Schema)
        ensures
            r.wf(),
            r@ == Map::<Seq<char>, ValueType>::empty(),
    {
        Schema { entries: Vec::new(), model: Ghost(Map::empty()) }
    }

    /// Position of `key` among the entries.
    pub(crate) fn find(&self, key: &String) -> (r: Option<usize>)
        requires
            self.wf(),
        ensures
            match r {
                Some(i) => i < self.entries@.len() && self.entries@[i as int].0@ == key@,
                None => !self@.contains_key(key@),
            },
    {
        let mut i: usize = 0;
        while i < self.entries.len()
            invariant
                self.wf(),
                i <= self.entries@.len(),
                forall|j: int| 0 <= j < i ==> self.entries@[j].0@ != key@,
            decreases self.entries@.len() - i,
        {
            if self.entries[i].0 == *key {
                return Some(i);
            }
            i = i + 1;
        }
        None
    }

    fn insert(&mut self, key: String, t: ValueType)
        requires
            old(self).wf(),
        ensures
            final(self).wf(),
            final(self)@ == old(self)@.insert(key@, t),
    {
        let ghost old_entries = self.entries@;
        let ghost new_model = self@.insert(key@, t);
        match self.find(&key) {
            Some(i) => {
                self.entries.set(i, (key, t));
                self.model = Ghost(new_model);
                proof {
                    assert forall|j: int| 0 <= j < self.entries@.len() implies
                        #[trigger] self.entries@[j].0@ == old_entries[j].0@ by {}
                    assert forall|a: int, b: int| 0 <= a < b < self.entries@.len() implies
                        self.entries@[a].0@ != self.entries@[b].0@ by {
                        assert(self.entries@[a].0@ == old_entries[a].0@);
                        assert(self.entries@[b].0@ == old_entries[b].0@);
                    }
                    assert forall|k: Seq<char>| #[trigger] new_model.contains_key(k) implies exists|
                        j: int,
                    | 0 <= j < self.entries@.len() && self.entries@[j].0@ == k by {
                        if k != self.entries@[i as int].0@ {
                            let j = choose|j: int|
                                0 <= j < old_entries.len() && old_entries[j].0@ == k;
                            assert(self.entries@[j].0@ == k);
                        }
                    }
                }
            },
            None => {
                self.entries.push((key, t));
                self.model = Ghost(new_model);
                proof {
                    let n = old_entries.len() as int;
                    assert forall|j: int| 0 <= j < n implies #[trigger] self.entries@[j]
                        == old_entries[j] && old_entries[j].0@ != key@ by {
                        assert(old(self)@.contains_key(old_entries[j].0@));
                    }
                    assert forall|a: int, b: int| 0 <= a < b < self.entries@.len() implies
                        self.entries@[a].0@ != self.entries@[b].0@ by {
                        assert(self.entries@[a] == old_entries[a]);
                    }
                    assert forall|k: Seq<char>| #[trigger] new_model.contains_key(k) implies exists|
                        j: int,
                    | 0 <= j < self.entries@.len() && self.entries@[j].0@ == k by {
                        if k != self.entries@[n].0@ {
                            let j = choose|j: int|
                                0 <= j < old_entries.len() && old_entries[j].0@ == k;
                            assert(self.entries@[j].0@ == k);
                        }
                    }
                }
            },
        }
    }
}

} // verus!
