//! Placeholders `**x` in a command, and the substitutions that fill them.

use vstd::prelude::*;
use vstd::string::*;

use crate::text::{chars_of, string_of};

verus! {

/// Two stars stand at `i` and `i + 1`.
pub open spec fn is_marker(t: Seq<char>, i: int) -> bool {
    0 <= i && i + 1 < t.len() && t[i] == '*' && t[i + 1] == '*'
}

/// Some `**` occurs in `t`.
pub open spec fn has_marker(t: Seq<char>) -> bool {
    exists|i: int| is_marker(t, i)
}

/// A placeholder starts at `i`: two stars and the character that is its key.
pub open spec fn is_placeholder(t: Seq<char>, i: int) -> bool {
    is_marker(t, i) && i + 2 < t.len()
}

/// `t[i..]` with its placeholders filled in from left to right: a placeholder whose key
/// `subs` holds gives way to the value, any other character stays.
pub open spec fn fill_from(t: Seq<char>, subs: Map<char, Seq<char>>, i: int) -> Seq<char>
    decreases t.len() - i,
{
    if i < 0 || i >= t.len() {
        Seq::empty()
    } else if is_placeholder(t, i) && subs.contains_key(t[i + 2]) {
        subs[t[i + 2]] + fill_from(t, subs, i + 3)
    } else {
        seq![t[i]] + fill_from(t, subs, i + 1)
    }
}

/// `t` with its placeholders filled in from `subs`.
pub open spec fn fill(t: Seq<char>, subs: Map<char, Seq<char>>) -> Seq<char> {
    fill_from(t, subs, 0)
}

/// What a template expands to: with substitutions, the filled template; without, the
/// template itself, unless it holds a `**`, and then nothing.
pub open spec fn expansion(t: Seq<char>, subs: Option<Map<char, Seq<char>>>) -> Option<Seq<char>> {
    match subs {
        Some(subs) => Some(fill(t, subs)),
        None => if has_marker(t) {
            None
        } else {
            Some(t)
        },
    }
}

/// A comma that separates two fields stands at `i`: one that no backslash precedes.
pub open spec fn is_separator(raw: Seq<char>, i: int) -> bool {
    0 <= i < raw.len() && raw[i] == ',' && (i == 0 || raw[i - 1] != '\\')
}

/// The place of the first separator at or after `i`, or the length of `raw` if there is none.
pub open spec fn first_separator_from(raw: Seq<char>, i: nat) -> nat
    decreases raw.len() - i,
{
    if i >= raw.len() {
        raw.len()
    } else if is_separator(raw, i as int) {
        i
    } else {
        first_separator_from(raw, i + 1)
    }
}

/// The place of the first separator of `raw`, or the length of `raw` if there is none.
pub open spec fn first_separator(raw: Seq<char>) -> nat {
    first_separator_from(raw, 0)
}

/// `s` with each backslash that stands before a comma taken out.
pub open spec fn unescape(s: Seq<char>) -> Seq<char>
    decreases s.len(),
{
    if s.len() == 0 {
        Seq::empty()
    } else if s.len() >= 2 && s[0] == '\\' && s[1] == ',' {
        seq![','] + unescape(s.skip(2))
    } else {
        seq![s[0]] + unescape(s.skip(1))
    }
}

/// The fields of a raw substitution argument: `raw` cut at its separators, each piece
/// unescaped.
pub open spec fn split_fields(raw: Seq<char>) -> Seq<Seq<char>>
    decreases raw.len(),
{
    let p = first_separator(raw);
    if p >= raw.len() {
        seq![unescape(raw)]
    } else {
        seq![unescape(raw.take(p as int))] + split_fields(raw.skip(p as int + 1))
    }
}

/// The value of a field: what follows its first two characters, the key and the sign
/// between key and value.
pub open spec fn field_value(field: Seq<char>) -> Seq<char> {
    if field.len() >= 2 {
        field.skip(2)
    } else {
        Seq::empty()
    }
}

/// The map that a list of fields gives: each field's first character is its key, and of
/// two fields with one key the earlier counts.
pub open spec fn map_of_fields(fields: Seq<Seq<char>>) -> Map<char, Seq<char>>
    decreases fields.len(),
{
    if fields.len() == 0 {
        Map::empty()
    } else {
        let before = map_of_fields(fields.drop_last());
        let field = fields.last();
        if before.contains_key(field[0]) {
            before
        } else {
            before.insert(field[0], field_value(field))
        }
    }
}

/// What a raw substitution argument means: the map of its fields, or nothing where a
/// field is empty and so has no key.
pub open spec fn parse_subs(raw: Seq<char>) -> Option<Map<char, Seq<char>>> {
    let fields = split_fields(raw);
    if forall|k: int| 0 <= k < fields.len() ==> (#[trigger] fields[k]).len() > 0 {
        Some(map_of_fields(fields))
    } else {
        None
    }
}

/// Why a template could not be expanded.
#[derive(Debug, PartialEq, Eq)]
pub enum SubstitutionError {
    /// The template holds `**` and no substitutions were given; carries the template.
    UnresolvedPlaceholder(String),
}

/// One `key=value` of a substitution argument.
#[derive(Debug)]
struct Substitution {
    key: char,
    value: String,
}

/// The substitutions of one invocation: for each key the value of the first field that
/// names it.
#[derive(Debug)]
pub struct SubstitutionMap {
    entries: Vec<Substitution>,
}

/// The map that a list of substitutions stands for; of two with one key the earlier counts.
spec fn table_of(entries: Seq<Substitution>) -> Map<char, Seq<char>>
    decreases entries.len(),
{
    if entries.len() == 0 {
        Map::empty()
    } else {
        let before = table_of(entries.drop_last());
        let e = entries.last();
        if before.contains_key(e.key) {
            before
        } else {
            before.insert(e.key, e.value@)
        }
    }
}

impl View for SubstitutionMap {
    type V = Map<char, Seq<char>>;

    closed spec fn view(&self) -> Map<char, Seq<char>> {
        table_of(self.entries@)
    }
}

/// The map of optional substitutions.
pub open spec fn subs_view(subs: Option<&SubstitutionMap>) -> Option<Map<char, Seq<char>>> {
    match subs {
        Some(subs) => Some(subs@),
        None => None,
    }
}

/// The map of optional substitutions, held by value.
pub open spec fn owned_subs_view(subs: Option<SubstitutionMap>) -> Option<Map<char, Seq<char>>> {
    match subs {
        Some(subs) => Some(subs@),
        None => None,
    }
}

proof fn lemma_table_absent(entries: Seq<Substitution>, key: char)
    requires
        forall|j: int| 0 <= j < entries.len() ==> entries[j].key != key,
    ensures
        !table_of(entries).contains_key(key),
    decreases entries.len(),
{
    if entries.len() > 0 {
        lemma_table_absent(entries.drop_last(), key);
    }
}

proof fn lemma_table_first(entries: Seq<Substitution>, key: char, i: int)
    requires
        0 <= i < entries.len(),
        entries[i].key == key,
        forall|j: int| 0 <= j < i ==> entries[j].key != key,
    ensures
        table_of(entries).contains_key(key),
        table_of(entries)[key] == entries[i].value@,
    decreases entries.len(),
{
    if i == entries.len() - 1 {
        lemma_table_absent(entries.drop_last(), key);
    } else {
        lemma_table_first(entries.drop_last(), key, i);
    }
}

proof fn lemma_first_separator(raw: Seq<char>, from: nat, p: nat)
    requires
        from <= p <= raw.len(),
        forall|j: int| from <= j < p ==> !is_separator(raw, j),
        p < raw.len() ==> is_separator(raw, p as int),
    ensures
        first_separator_from(raw, from) == p,
    decreases p - from,
{
    if from < p {
        lemma_first_separator(raw, from + 1, p);
    }
}

impl Substitution {
    /// The substitution that a field gives.
    fn of_field(field: &Vec<char>) -> (sub: Substitution)
        requires
            field.len() > 0,
        ensures
            sub.key == field[0],
            sub.value@ == field_value(field@),
    {
        let value = if field.len() >= 2 {
            string_of(field, 2, field.len())
        } else {
            String::new()
        };
        Substitution { key: field[0], value }
    }
}

/// The place of the first substitution for `key`, if there is one.
fn find_key(entries: &Vec<Substitution>, key: char) -> (r: Option<usize>)
    ensures
        match r {
            Some(i) => i < entries.len() && entries@[i as int].key == key && table_of(
                entries@,
            ).contains_key(key) && table_of(entries@)[key] == entries@[i as int].value@,
            None => !table_of(entries@).contains_key(key),
        },
{
    let mut i: usize = 0;
    while i < entries.len()
        invariant
            i <= entries.len(),
            forall|j: int| 0 <= j < i ==> entries@[j].key != key,
        decreases entries.len() - i,
    {
        if entries[i].key == key {
            proof {
                lemma_table_first(entries@, key, i as int);
            }
            return Some(i);
        }
        i += 1;
    }
    proof {
        lemma_table_absent(entries@, key);
    }
    None
}

/// The place of the first separator of `chars[start..]`, counted from the start of
/// `chars`; the length of `chars` if there is none.
fn find_separator(chars: &Vec<char>, start: usize) -> (p: usize)
    requires
        start <= chars.len(),
    ensures
        start <= p <= chars.len(),
        p - start == first_separator(chars@.skip(start as int)),
{
    let ghost rest = chars@.skip(start as int);
    let mut i: usize = start;
    while i < chars.len()
        invariant
            start <= i <= chars.len(),
            rest == chars@.skip(start as int),
            forall|j: int| 0 <= j < i - start ==> !is_separator(rest, j),
        decreases chars.len() - i,
    {
        if chars[i] == ',' && (i == start || chars[i - 1] != '\\') {
            proof {
                assert(is_separator(rest, i - start));
                lemma_first_separator(rest, 0, (i - start) as nat);
            }
            return i;
        }
        assert(!is_separator(rest, i - start));
        i += 1;
    }
    proof {
        lemma_first_separator(rest, 0, (i - start) as nat);
    }
    i
}

/// The characters `chars[from..to]`, unescaped.
fn unescape_range(chars: &Vec<char>, from: usize, to: usize) -> (out: Vec<char>)
    requires
        from <= to <= chars.len(),
    ensures
        out@ == unescape(chars@.subrange(from as int, to as int)),
{
    let mut out: Vec<char> = Vec::new();
    let mut i: usize = from;
    while i < to
        invariant
            from <= i <= to <= chars.len(),
            out@ + unescape(chars@.subrange(i as int, to as int)) == unescape(
                chars@.subrange(from as int, to as int),
            ),
        decreases to - i,
    {
        let ghost before = out@;
        let ghost piece = chars@.subrange(i as int, to as int);
        if to - i >= 2 && chars[i] == '\\' && chars[i + 1] == ',' {
            out.push(',');
            assert(piece.skip(2) == chars@.subrange(i + 2, to as int));
            assert(out@ + unescape(piece.skip(2)) == before + unescape(piece));
            i += 2;
        } else {
            out.push(chars[i]);
            assert(piece.skip(1) == chars@.subrange(i + 1, to as int));
            assert(out@ + unescape(piece.skip(1)) == before + unescape(piece));
            i += 1;
        }
    }
    assert(chars@.subrange(to as int, to as int) == Seq::<char>::empty());
    assert(out@ + Seq::<char>::empty() == out@);
    out
}

/// Whether `**` occurs in `t`.
fn find_marker(t: &Vec<char>) -> (found: bool)
    ensures
        found == has_marker(t@),
{
    let mut i: usize = 0;
    while i < t.len() && t.len() - i > 1
        invariant
            forall|j: int| 0 <= j < i ==> !is_marker(t@, j),
        decreases t.len() - i,
    {
        if t[i] == '*' && t[i + 1] == '*' {
            assert(is_marker(t@, i as int));
            return true;
        }
        i += 1;
    }
    false
}

impl SubstitutionMap {
    /// Reads a raw substitution argument, `key=value,key=value`. Fields end at a comma;
    /// `\,` stands for a comma inside a field. A field's key is its first character and
    /// its value what follows the second. Where two fields have one key the first counts.
    /// An argument with an empty field is refused.
    pub fn parse(raw: &str) -> (r: Option<SubstitutionMap>)
        ensures
            match r {
                Some(subs) => parse_subs(raw@) == Some(subs@),
                None => parse_subs(raw@) is None,
            },
    {
        let chars = chars_of(raw);
        let mut entries: Vec<Substitution> = Vec::new();
        let ghost mut done: Seq<Seq<char>> = Seq::empty();
        let mut start: usize = 0;
        proof {
            assert(raw@.skip(0) == raw@);
            assert(done + split_fields(raw@) == split_fields(raw@));
        }
        loop
            invariant
                chars@ == raw@,
                start <= chars.len(),
                split_fields(raw@) == done + split_fields(raw@.skip(start as int)),
                forall|k: int| 0 <= k < done.len() ==> (#[trigger] done[k]).len() > 0,
                table_of(entries@) == map_of_fields(done),
            decreases chars.len() - start,
        {
            let ghost rest = raw@.skip(start as int);
            let p = find_separator(&chars, start);
            let field = unescape_range(&chars, start, p);
            proof {
                if p < chars.len() {
                    assert(rest.take(p - start) == raw@.subrange(start as int, p as int));
                    assert(rest.skip(p - start + 1) == raw@.skip(p + 1));
                } else {
                    assert(rest == raw@.subrange(start as int, p as int));
                }
                assert(split_fields(rest)[0] == field@);
                assert(split_fields(raw@)[done.len() as int] == field@);
            }
            if field.len() == 0 {
                return None;
            }
            let sub = Substitution::of_field(&field);
            if find_key(&entries, sub.key).is_none() {
                let ghost before = entries@;
                entries.push(sub);
                assert(entries@.drop_last() == before);
            }
            proof {
                assert(done.push(field@).drop_last() == done);
                if p < chars.len() {
                    assert(done + (seq![field@] + split_fields(raw@.skip(p + 1))) == done.push(
                        field@,
                    ) + split_fields(raw@.skip(p + 1)));
                } else {
                    assert(done + seq![field@] == done.push(field@));
                }
                done = done.push(field@);
            }
            if p == chars.len() {
                assert(split_fields(raw@) == done);
                return Some(SubstitutionMap { entries });
            }
            start = p + 1;
        }
    }

    /// The value for `key`, if there is one.
    pub fn get(&self, key: char) -> (r: Option<&str>)
        ensures
            match r {
                Some(value) => self@.contains_key(key) && self@[key] == value@,
                None => !self@.contains_key(key),
            },
    {
        match find_key(&self.entries, key) {
            Some(i) => Some(self.entries[i].value.as_str()),
            None => None,
        }
    }
}

/// Fills the placeholders of `template`. With substitutions, each `**x` whose key they
/// hold gives way to its value, and one whose key they lack stays as it is. Without,
/// a template that holds `**` is refused, and any other comes back unchanged.
pub fn expand(template: &str, subs: Option<&SubstitutionMap>) -> (r: Result<
    String,
    SubstitutionError,
>)
    ensures
        match r {
            Ok(out) => expansion(template@, subs_view(subs)) == Some(out@),
            Err(SubstitutionError::UnresolvedPlaceholder(t)) => expansion(
                template@,
                subs_view(subs),
            ) is None && t@ == template@,
        },
{
    let t = chars_of(template);
    match subs {
        None => {
            if find_marker(&t) {
                Err(SubstitutionError::UnresolvedPlaceholder(template.to_owned()))
            } else {
                Ok(template.to_owned())
            }
        },
        Some(subs) => {
            let mut out = String::new();
            let mut i: usize = 0;
            while i < t.len()
                invariant
                    i <= t.len(),
                    out@ + fill_from(t@, subs@, i as int) == fill(t@, subs@),
                decreases t.len() - i,
            {
                let found = if t.len() - i > 2 && t[i] == '*' && t[i + 1] == '*' {
                    subs.get(t[i + 2])
                } else {
                    None
                };
                match found {
                    Some(value) => {
                        let ghost before = out@;
                        out.append(value);
                        assert(out@ + fill_from(t@, subs@, i + 3) == before + fill_from(
                            t@,
                            subs@,
                            i as int,
                        ));
                        i += 3;
                    },
                    None => {
                        let ghost before = out@;
                        out.push(t[i]);
                        assert(out@ + fill_from(t@, subs@, i + 1) == before + fill_from(
                            t@,
                            subs@,
                            i as int,
                        ));
                        i += 1;
                    },
                }
            }
            Ok(out)
        },
    }
}

/// No value of `subs` holds a star.
pub open spec fn star_free(subs: Map<char, Seq<char>>) -> bool {
    forall|key: char, j: int|
        subs.contains_key(key) && 0 <= j < subs[key].len() ==> #[trigger] subs[key][j] != '*'
}

/// Every placeholder of `t` has a value in `subs`.
pub open spec fn covers(subs: Map<char, Seq<char>>, t: Seq<char>) -> bool {
    forall|i: int| #[trigger] is_placeholder(t, i) ==> subs.contains_key(t[i + 2])
}

/// Three stars stand in a row at `i`.
pub open spec fn is_triple_star(t: Seq<char>, i: int) -> bool {
    is_marker(t, i) && is_marker(t, i + 1)
}

/// The placeholder of `key` stands at `p` in `s`.
pub open spec fn placeholder_at(s: Seq<char>, key: char, p: int) -> bool {
    is_placeholder(s, p) && s[p + 2] == key
}

proof fn lemma_fill_head(t: Seq<char>, subs: Map<char, Seq<char>>, i: int)
    requires
        star_free(subs),
        0 <= i,
        fill_from(t, subs, i).len() > 0,
        fill_from(t, subs, i)[0] == '*',
    ensures
        i < t.len(),
        t[i] == '*',
{
    if is_placeholder(t, i) && subs.contains_key(t[i + 2]) {
    } else {
        assert(fill_from(t, subs, i)[0] == seq![t[i]][0]);
    }
}

proof fn lemma_fill_from_resolves_all(t: Seq<char>, subs: Map<char, Seq<char>>, i: int, p: int)
    requires
        covers(subs, t),
        star_free(subs),
        0 <= i <= t.len(),
    ensures
        !is_placeholder(fill_from(t, subs, i), p),
    decreases t.len() - i,
{
    let out = fill_from(t, subs, i);
    if i < t.len() && is_placeholder(out, p) {
        if is_placeholder(t, i) && subs.contains_key(t[i + 2]) {
            let value = subs[t[i + 2]];
            let rest = fill_from(t, subs, i + 3);
            assert(out == value + rest);
            if p < value.len() {
                assert(out[p] == value[p]);
            } else {
                lemma_fill_from_resolves_all(t, subs, i + 3, p - value.len());
                assert(out[p] == rest[p - value.len()]);
                assert(out[p + 1] == rest[p - value.len() + 1]);
            }
        } else {
            let rest = fill_from(t, subs, i + 1);
            assert(out == seq![t[i]] + rest);
            if p >= 1 {
                lemma_fill_from_resolves_all(t, subs, i + 1, p - 1);
                assert(out[p] == rest[p - 1]);
                assert(out[p + 1] == rest[p]);
            } else {
                assert(out[0] == t[i]);
                assert(out[1] == rest[0]);
                lemma_fill_head(t, subs, i + 1);
                assert(is_marker(t, i));
                if i + 2 < t.len() {
                    assert(is_placeholder(t, i));
                    assert(subs.contains_key(t[i + 2]));
                } else {
                    assert(rest == seq![t[i + 1]] + fill_from(t, subs, i + 2));
                }
            }
        }
    }
}

/// Where every placeholder of the template has a value, and no value holds a star, the
/// filled template holds no placeholder.
pub proof fn lemma_fill_resolves_all(t: Seq<char>, subs: Map<char, Seq<char>>)
    requires
        covers(subs, t),
        star_free(subs),
    ensures
        forall|p: int| !is_placeholder(fill(t, subs), p),
{
    assert forall|p: int| !is_placeholder(fill(t, subs), p) by {
        lemma_fill_from_resolves_all(t, subs, 0, p);
    }
}

proof fn lemma_fill_from_resolves_key(
    t: Seq<char>,
    subs: Map<char, Seq<char>>,
    key: char,
    i: int,
    p: int,
)
    requires
        subs.contains_key(key),
        star_free(subs),
        forall|j: int| !is_triple_star(t, j),
        0 <= i <= t.len(),
    ensures
        !placeholder_at(fill_from(t, subs, i), key, p),
    decreases t.len() - i,
{
    let out = fill_from(t, subs, i);
    if i < t.len() && placeholder_at(out, key, p) {
        if is_placeholder(t, i) && subs.contains_key(t[i + 2]) {
            let value = subs[t[i + 2]];
            let rest = fill_from(t, subs, i + 3);
            assert(out == value + rest);
            if p < value.len() {
                assert(out[p] == value[p]);
            } else {
                lemma_fill_from_resolves_key(t, subs, key, i + 3, p - value.len());
                assert(out[p] == rest[p - value.len()]);
                assert(out[p + 1] == rest[p - value.len() + 1]);
                assert(out[p + 2] == rest[p - value.len() + 2]);
            }
        } else {
            let rest = fill_from(t, subs, i + 1);
            assert(out == seq![t[i]] + rest);
            if p >= 1 {
                lemma_fill_from_resolves_key(t, subs, key, i + 1, p - 1);
                assert(out[p] == rest[p - 1]);
                assert(out[p + 1] == rest[p]);
                assert(out[p + 2] == rest[p + 1]);
            } else {
                assert(out[0] == t[i]);
                assert(out[1] == rest[0]);
                assert(out[2] == rest[1]);
                lemma_fill_head(t, subs, i + 1);
                assert(is_marker(t, i));
                if is_placeholder(t, i + 1) && subs.contains_key(t[i + 3]) {
                    assert(is_triple_star(t, i));
                } else {
                    let tail = fill_from(t, subs, i + 2);
                    assert(rest == seq![t[i + 1]] + tail);
                    assert(rest[1] == tail[0]);
                    if is_placeholder(t, i + 2) && subs.contains_key(t[i + 4]) {
                        assert(is_triple_star(t, i));
                    } else {
                        assert(tail[0] == seq![t[i + 2]][0]);
                    }
                }
            }
        }
    }
}

/// After filling, no placeholder of a key that has a value is left, whatever other
/// placeholders the template holds, where it holds no three stars in a row and no value
/// holds a star.
pub proof fn lemma_fill_resolves_key(t: Seq<char>, subs: Map<char, Seq<char>>, key: char)
    requires
        subs.contains_key(key),
        star_free(subs),
        forall|j: int| !is_triple_star(t, j),
    ensures
        forall|p: int| !placeholder_at(fill(t, subs), key, p),
{
    assert forall|p: int| !placeholder_at(fill(t, subs), key, p) by {
        lemma_fill_from_resolves_key(t, subs, key, 0, p);
    }
}

} // verus!
