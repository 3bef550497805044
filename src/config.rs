use vstd::prelude::*;
use crate::error::ParseError;
use crate::text::{
    back_ws, find_in, is_ws, lemma_back_ws_bounds, lemma_find_in_bounds, lemma_find_in_first,
    lemma_skip_ws_bounds, lemma_trimmed_ws_tail, skip_ws, trimmed,
};
use crate::token::{
    all_lines_valid, classify, invalid_line_error, lemma_lines_bounds, line_kinds, lines, LineKind,
    Token, Tokens,
};

verus! {

/// The key-value pairs that a run of lines defines, later lines overriding earlier ones.
pub open spec fn config_map(ts: Seq<LineKind>) -> Map<Seq<char>, Seq<char>>
    decreases ts.len(),
{
    if ts.len() == 0 {
        Map::empty()
    } else {
        let m = config_map(ts.drop_last());
        match ts.last() {
            LineKind::KeyValue { key, value, .. } => m.insert(key, value),
            _ => m,
        }
    }
}

/// The configuration that the text `s` defines.
pub open spec fn config_of(s: Seq<char>) -> Map<Seq<char>, Seq<char>> {
    config_map(line_kinds(s))
}

/// `t` is a key-value line for key `k`.
pub open spec fn defines_key(t: LineKind, k: Seq<char>) -> bool {
    t matches LineKind::KeyValue { key, .. } && key == k
}

proof fn lemma_config_map_last_line(ts: Seq<LineKind>, i: int, k: Seq<char>)
    requires
        0 <= i < ts.len(),
        defines_key(ts[i], k),
        forall|j: int| i < j < ts.len() ==> !defines_key(#[trigger] ts[j], k),
    ensures
        config_map(ts).contains_key(k),
        config_map(ts)[k] == ts[i]->KeyValue_value,
    decreases ts.len(),
{
    if i < ts.len() - 1 {
        let rest = ts.drop_last();
        assert forall|j: int| i < j < rest.len() implies !defines_key(#[trigger] rest[j], k) by {
            assert(rest[j] == ts[j]);
        }
        lemma_config_map_last_line(rest, i, k);
        assert(!defines_key(ts[ts.len() - 1], k));
    }
}

/// In accepted text, a key whose last key-value line is line `i` (0-based) maps
/// to the trimmed text between that line's first `=` and its end.
pub proof fn lemma_value_is_text_after_equals(s: Seq<char>, i: int, k: Seq<char>)
    requires
        all_lines_valid(s),
        0 <= i < lines(s).len(),
        defines_key(line_kinds(s)[i], k),
        forall|j: int| i < j < lines(s).len() ==> !defines_key(#[trigger] line_kinds(s)[j], k),
    ensures
        config_of(s).contains_key(k),
        config_of(s)[k] == trimmed(s, find_in(s, '=', lines(s)[i].0, lines(s)[i].1) + 1, lines(s)[i].1),
{
    lemma_lines_bounds(s);
    let lo = lines(s)[i].0;
    let hi = lines(s)[i].1;
    let a = skip_ws(s, lo, hi);
    lemma_skip_ws_bounds(s, lo, hi);
    let b = back_ws(s, a, hi);
    lemma_back_ws_bounds(s, a, hi);
    let start = if s[a] == '-' { a + 1 } else { a };
    let p = find_in(s, '=', start, b);
    lemma_find_in_bounds(s, '=', start, b);
    assert(line_kinds(s)[i] == classify(s, lo, hi));
    assert(!is_ws('='));
    lemma_find_in_first(s, '=', lo, p, hi);
    lemma_trimmed_ws_tail(s, p + 1, b, hi);
    lemma_config_map_last_line(line_kinds(s), i, k);
}

/// A parsed configuration: a map from key to raw value.
pub struct Config {
    pub(crate) entries: Vec<(String, String)>,
    pub(crate) model: Ghost<Map<Seq<char>, Seq<char>>>,
}

impl View for Config {
    type V = Map<Seq<char>, Seq<char>>;

    open(crate) spec fn view(&self) -> Map<Seq<char>, Seq<char>> {
        self.model@
    }
}

impl Config {
    /// Keys are unique among the entries, and the entries are exactly the map.
    pub open(crate) spec fn wf(&self) -> bool {
        &&& forall|i: int, j: int|
            0 <= i < j < self.entries@.len() ==> self.entries@[i].0@ != self.entries@[j].0@
        &&& forall|i: int|
            0 <= i < self.entries@.len() ==> {
                &&& #[trigger] self@.contains_key(self.entries@[i].0@)
                &&& self@[self.entries@[i].0@] == self.entries@[i].1@
            }
        &&& forall|k: Seq<char>|
            #[trigger] self@.contains_key(k) ==> exists|i: int|
                0 <= i < self.entries@.len() && self.entries@[i].0@ == k
    }

    /// Reads `content` line by line; later lines override earlier ones for the same key.
    /// Fails on the first line that is neither blank, nor a comment, nor holds a `=`.
    pub fn parse(content: &str) -> (r: Result<Config, ParseError>)
        ensures
            r is Ok <==> all_lines_valid(content@),
            match r {
                Ok(c) => {
                    &&& all_lines_valid(content@)
                    &&& c.wf()
                    &&& c@ == config_of(content@)
                },
                Err(e) => invalid_line_error(content@, e),
            },
    {
        let parsed = match Tokens::parse(content) {
            Ok(t) => t,
            Err(e) => {
                return Err(e);
            },
        };
        let ghost kinds = line_kinds(content@);
        let tokens = &parsed.tokens;
        proof {
            assert(kinds.len() == tokens@.len());
        }
        let mut c = Config::empty();
        let mut i: usize = 0;
        while i < tokens.len()
            invariant
                tokens@.map_values(|x: Token| x@) == kinds,
                i <= tokens@.len(),
                c.wf(),
                c@ == config_map(kinds.take(i as int)),
            decreases tokens@.len() - i,
        {
            proof {
                assert(kinds.take(i + 1).drop_last() =~= kinds.take(i as int));
                assert(kinds[i as int] == tokens@[i as int]@);
            }
            match &tokens[i] {
                Token::KeyValue { key, value, .. } => {
                    c.insert(key.clone(), value.clone());
                },
                _ => {},
            }
            i = i + 1;
        }
        proof {
            assert(kinds.take(i as int) =~= kinds);
        }
        Ok(c)
    }

    /// The value of `key`, if the configuration has one.
    pub fn get(&self, key: &str) -> (r: Option<&str>)
        requires
            self.wf(),
        ensures
            match r {
                Some(v) => self@.contains_key(key@) && v@ == self@[key@],
                None => !self@.contains_key(key@),
            },
    {
        let k = key.to_owned();
        match self.find(&k) {
            Some(i) => {
                proof {
                    assert(self@.contains_key(self.entries@[i as int].0@));
                }
                Some(self.entries[i].1.as_str())
            },
            None => None,
        }
    }

    /// Number of keys.
    pub fn len(&self) -> (r: usize)
        requires
            self.wf(),
        ensures
            r == self@.dom().len(),
    {
        proof {
            let keys = self.entries@.map_values(|e: (String, String)| e.0@);
            assert(keys.no_duplicates());
            assert(keys.to_set() =~= self@.dom()) by {
                assert forall|k: Seq<char>| self@.contains_key(k) implies keys.to_set().contains(k) by {
                    let i = choose|i: int| 0 <= i < self.entries@.len() && self.entries@[i].0@ == k;
                    assert(keys[i] == k);
                }
                assert forall|k: Seq<char>| keys.to_set().contains(k) implies self@.contains_key(k) by {
                    let i = choose|i: int| 0 <= i < keys.len() && keys[i] == k;
                    assert(self@.contains_key(self.entries@[i].0@));
                }
            }
            keys.unique_seq_to_set();
        }
        self.entries.len()
    }

    fn empty() -> (r: Config)
        ensures
            r.wf(),
            r@ == Map::<Seq<char>, Seq<char>>::empty(),
    {
        Config { entries: Vec::new(), model: Ghost(Map::empty()) }
    }

    /// Position of `key` among the entries.
    pub(crate) fn find(&self, key: &String) -> (r: Option<usize>)
        requires
            self.wf(),
        ensures
            match r {
                Some(i) => i < self.entries@.len() && self.entries@[i as int].0@ == key@,
                None => !self@.contains_key(key@),
            },
    {
        let mut i: usize = 0;
        while i < self.entries.len()
            invariant
                self.wf(),
                i <= self.entries@.len(),
                forall|j: int| 0 <= j < i ==> self.entries@[j].0@ != key@,
            decreases self.entries@.len() - i,
        {
            if self.entries[i].0 == *key {
                return Some(i);
            }
            i = i + 1;
        }
        None
    }

    fn insert(&mut self, key: String, value: String)
        requires
            old(self).wf(),
        ensures
            final(self).wf(),
            final(self)@ == old(self)@.insert(key@, value@),
    {
        let ghost old_entries = self.entries@;
        let ghost new_model = self@.insert(key@, value@);
        match self.find(&key) {
            Some(i) => {
                self.entries.set(i, (key, value));
                self.model = Ghost(new_model);
                proof {
                    assert forall|j: int| 0 <= j < self.entries@.len() implies
                        #[trigger] self.entries@[j].0@ == old_entries[j].0@ by {}
                    assert forall|a: int, b: int| 0 <= a < b < self.entries@.len() implies
                        self.entries@[a].0@ != self.entries@[b].0@ by {
                        assert(self.entries@[a].0@ == old_entries[a].0@);
                        assert(self.entries@[b].0@ == old_entries[b].0@);
                    }
                    assert forall|j: int|
                        0 <= j < self.entries@.len() implies #[trigger] self@.contains_key(
                        self.entries@[j].0@) && self@[self.entries@[j].0@] == self.entries@[j].1@ by {
                        if j != i {
                            if j < i {
                                assert(old_entries[j].0@ != old_entries[i as int].0@);
                            } else {
                                assert(old_entries[i as int].0@ != old_entries[j].0@);
                            }
                            assert(old(self)@.contains_key(old_entries[j].0@));
                        }
                    }
                    assert forall|k: Seq<char>| #[trigger] new_model.contains_key(k) implies exists|
                        j: int,
                    | 0 <= j < self.entries@.len() && self.entries@[j].0@ == k by {
                        if k != self.entries@[i as int].0@ {
                            let j = choose|j: int|
                                0 <= j < old_entries.len() && old_entries[j].0@ == k;
                            assert(self.entries@[j].0@ == k);
                        }
                    }
                }
            },
            None => {
                self.entries.push((key, value));
                self.model = Ghost(new_model);
                proof {
                    let n = old_entries.len() as int;
                    assert forall|j: int| 0 <= j < n implies #[trigger] self.entries@[j]
                        == old_entries[j] && old_entries[j].0@ != key@ by {
                        assert(old(self)@.contains_key(old_entries[j].0@));
                    }
                    assert forall|a: int, b: int| 0 <= a < b < self.entries@.len() implies
                        self.entries@[a].0@ != self.entries@[b].0@ by {
                        assert(self.entries@[a] == old_entries[a]);
                    }
                    assert forall|k: Seq<char>| #[trigger] new_model.contains_key(k) implies exists|
                        j: int,
                    | 0 <= j < self.entries@.len() && self.entries@[j].0@ == k by {
                        if k != self.entries@[n].0@ {
                            let j = choose|j: int|
                                0 <= j < old_entries.len() && old_entries[j].0@ == k;
                            assert(self.entries@[j].0@ == k);
                        }
                    }
                }
            },
        }
    }
}

} // verus!
