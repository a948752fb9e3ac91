//! The variable store: numbers kept under names, and the text form in which
//! they outlive a session.
//!
//! The text holds two lines for each variable, its name and its value in
//! decimal. A name with a line break in it cannot be kept.

use crate::math::base::NumberBase;
use crate::math::integer::is_decimal_digit;
use crate::math::number::{fract, is_integral, Num};
use crate::math::parsefmt::{
    fmt, fmt_text, lemma_parse_undoes_fmt, parse, parse_text, terminates_within,
};
use crate::text::{first_index, lemma_first_index, lemma_first_index_is, split_once, str_eq};
use vstd::prelude::*;
use vstd::string::*;

verus! {

/// Where the entry named `name` stands; the number of entries if there is
/// none.
pub open spec fn index_of_name(entries: Seq<(Seq<char>, real)>, name: Seq<char>) -> int
    decreases entries.len(),
{
    if entries.len() == 0 || entries[0].0 == name {
        0
    } else {
        1 + index_of_name(entries.drop_first(), name)
    }
}

/// The value kept under `name`, if any.
pub open spec fn lookup(entries: Seq<(Seq<char>, real)>, name: Seq<char>) -> Option<real> {
    let i = index_of_name(entries, name);
    if i < entries.len() {
        Some(entries[i].1)
    } else {
        None
    }
}

/// The entries after `v` is kept under `name`: in place of the old value if
/// the name is known, and as a new last entry otherwise.
pub open spec fn stored(entries: Seq<(Seq<char>, real)>, name: Seq<char>, v: real) -> Seq<
    (Seq<char>, real),
> {
    let i = index_of_name(entries, name);
    if i < entries.len() {
        entries.update(i, (name, v))
    } else {
        entries.push((name, v))
    }
}

/// Whether no two entries share a name.
pub open spec fn distinct_names(entries: Seq<(Seq<char>, real)>) -> bool {
    forall|i: int, j: int|
        0 <= i < j < entries.len() ==> (#[trigger] entries[i]).0 != (#[trigger] entries[j]).0
}

/// The text form of the entries: for each, a line with the name and a line
/// with the value in decimal, with at most `places` fractional digits.
pub open spec fn encode_text(entries: Seq<(Seq<char>, real)>, places: nat) -> Seq<char>
    decreases entries.len(),
{
    if entries.len() == 0 {
        Seq::empty()
    } else {
        encode_text(entries.drop_last(), places) + entries.last().0 + seq!['\n'] + fmt_text(
            entries.last().1,
            NumberBase::Decimal,
            places,
        ) + seq!['\n']
    }
}

/// A line without the carriage return that may end it.
pub open spec fn strip_cr(line: Seq<char>) -> Seq<char> {
    if line.len() > 0 && line.last() == '\r' {
        line.drop_last()
    } else {
        line
    }
}

/// The lines of a text. A line ends at a line feed, and a carriage return
/// just before the line feed belongs to the line ending. Text behind the
/// last line feed is a line of its own.
pub open spec fn lines_of(s: Seq<char>) -> Seq<Seq<char>>
    decreases s.len(),
{
    if s.len() == 0 {
        Seq::empty()
    } else {
        let p = first_index(s, '\n');
        if 0 <= p < s.len() {
            seq![strip_cr(s.subrange(0, p))] + lines_of(s.subrange(p + 1, s.len() as int))
        } else {
            seq![s]
        }
    }
}

/// The entries read from the first `pairs` pairs of lines: a pair is a name
/// and a value, and a pair whose value is no decimal number is passed over.
pub open spec fn decode_pairs(lines: Seq<Seq<char>>, pairs: nat) -> Seq<(Seq<char>, real)>
    decreases pairs,
{
    if pairs == 0 {
        Seq::empty()
    } else {
        let before = decode_pairs(lines, (pairs - 1) as nat);
        match parse_text(lines[2 * pairs - 1]) {
            Some(v) => stored(before, lines[2 * pairs - 2], v),
            None => before,
        }
    }
}

/// The entries that a text holds. A last line without a partner is passed
/// over.
pub open spec fn decode_text(s: Seq<char>) -> Seq<(Seq<char>, real)> {
    decode_pairs(lines_of(s), lines_of(s).len() / 2)
}

/// What `index_of_name` finds is the first entry of that name, or the end.
pub proof fn lemma_index_of_name(entries: Seq<(Seq<char>, real)>, name: Seq<char>)
    ensures
        0 <= index_of_name(entries, name) <= entries.len(),
        forall|j: int| 0 <= j < index_of_name(entries, name) ==> (#[trigger] entries[j]).0 != name,
        index_of_name(entries, name) < entries.len() ==> entries[index_of_name(
            entries,
            name,
        )].0 == name,
    decreases entries.len(),
{
    if entries.len() == 0 || entries[0].0 == name {
    } else {
        let t = entries.drop_first();
        lemma_index_of_name(t, name);
        assert forall|j: int| 0 <= j < index_of_name(entries, name) implies (
        #[trigger] entries[j]).0 != name by {
            if j > 0 {
                assert(entries[j] == t[j - 1]);
            }
        }
        if index_of_name(entries, name) < entries.len() {
            assert(entries[index_of_name(entries, name)] == t[index_of_name(t, name)]);
        }
    }
}

/// An index with the name at it and not before it is what `index_of_name`
/// finds.
pub proof fn lemma_index_of_name_is(entries: Seq<(Seq<char>, real)>, name: Seq<char>, p: int)
    requires
        0 <= p <= entries.len(),
        forall|j: int| 0 <= j < p ==> (#[trigger] entries[j]).0 != name,
        p < entries.len() ==> entries[p].0 == name,
    ensures
        index_of_name(entries, name) == p,
{
    lemma_index_of_name(entries, name);
    let q = index_of_name(entries, name);
    if q < p {
        assert(entries[q].0 == name);
    } else if p < q {
        assert(entries[p].0 == name);
    }
}

/// Keeping a value under a name leaves the names distinct, makes the value
/// the one found under the name, and leaves every other name as it was.
pub proof fn lemma_stored(entries: Seq<(Seq<char>, real)>, name: Seq<char>, v: real)
    requires
        distinct_names(entries),
    ensures
        distinct_names(stored(entries, name, v)),
        lookup(stored(entries, name, v), name) == Some(v),
        forall|other: Seq<char>|
            other != name ==> lookup(stored(entries, name, v), other) == lookup(entries, other),
{
    let after = stored(entries, name, v);
    let i = index_of_name(entries, name);
    lemma_index_of_name(entries, name);
    assert forall|a: int, b: int| 0 <= a < b < after.len() implies (#[trigger] after[a]).0 != (
    #[trigger] after[b]).0 by {
        if i < entries.len() {
            assert(entries[a].0 != entries[b].0);
        } else if b < entries.len() {
            assert(entries[a].0 != entries[b].0);
        } else {
            assert(entries[a].0 != name);
        }
    }
    lemma_index_of_name_is(after, name, i);
    assert forall|other: Seq<char>| other != name implies lookup(after, other) == lookup(
        entries,
        other,
    ) by {
        let k = index_of_name(entries, other);
        lemma_index_of_name(entries, other);
        assert forall|j: int| 0 <= j < k implies (#[trigger] after[j]).0 != other by {
            assert(entries[j].0 != other);
        }
        if k < entries.len() {
            lemma_index_of_name_is(after, other, k);
        } else {
            assert forall|j: int| 0 <= j < after.len() implies (#[trigger] after[j]).0
                != other by {
                if j < entries.len() {
                    assert(entries[j].0 != other);
                }
            }
            lemma_index_of_name_is(after, other, after.len() as int);
        }
    }
}

/// The entries read from lines never share a name.
pub proof fn lemma_decode_names_distinct(lines: Seq<Seq<char>>, pairs: nat)
    ensures
        distinct_names(decode_pairs(lines, pairs)),
    decreases pairs,
{
    if pairs > 0 {
        lemma_decode_names_distinct(lines, (pairs - 1) as nat);
        let before = decode_pairs(lines, (pairs - 1) as nat);
        match parse_text(lines[2 * pairs - 1]) {
            Some(v) => {
                lemma_stored(before, lines[2 * pairs - 2], v);
            },
            None => {},
        }
    }
}

/// Whether a name can stand on a line of its own: it holds no line feed and
/// does not end in a carriage return.
pub open spec fn plain_name(name: Seq<char>) -> bool {
    &&& forall|j: int| 0 <= j < name.len() ==> name[j] != '\n'
    &&& !(name.len() > 0 && name.last() == '\r')
}

/// Whether a value is written in full within `places` fractional digits and
/// reads back as itself: it is whole, or above zero with a fraction that
/// ends within the places.
pub open spec fn plain_value(v: real, places: nat) -> bool {
    is_integral(v) || (v > 0real && terminates_within(fract(v), 10, places))
}

/// The lines that the entries are written on: for each, the name and the
/// value.
pub open spec fn pair_lines(entries: Seq<(Seq<char>, real)>, places: nat) -> Seq<Seq<char>>
    decreases entries.len(),
{
    if entries.len() == 0 {
        Seq::empty()
    } else {
        pair_lines(entries.drop_last(), places) + seq![
            entries.last().0,
            fmt_text(entries.last().1, NumberBase::Decimal, places),
        ]
    }
}

/// A line that ends in a line feed is the first line of a text, and the
/// other lines are those of what follows.
proof fn lemma_lines_of_line(line: Seq<char>, rest: Seq<char>)
    requires
        plain_name(line),
    ensures
        lines_of(line + seq!['\n'] + rest) == seq![line] + lines_of(rest),
{
    let s = line + seq!['\n'] + rest;
    let p = line.len() as int;
    assert forall|j: int| 0 <= j < p implies s[j] != '\n' by {
        assert(s[j] == line[j]);
    }
    assert(s[p] == '\n');
    lemma_first_index_is(s, '\n', p);
    assert(s.subrange(0, p) =~= line);
    assert(s.subrange(p + 1, s.len() as int) =~= rest);
}

/// The text form of entries with plain names and values, with any text
/// behind it, falls into the lines of the entries and the lines of that
/// text.
proof fn lemma_lines_of_encoded(entries: Seq<(Seq<char>, real)>, places: nat, rest: Seq<char>)
    requires
        forall|i: int| 0 <= i < entries.len() ==> plain_name((#[trigger] entries[i]).0),
        forall|i: int| 0 <= i < entries.len() ==> plain_value((#[trigger] entries[i]).1, places),
    ensures
        lines_of(encode_text(entries, places) + rest) == pair_lines(entries, places) + lines_of(
            rest,
        ),
    decreases entries.len(),
{
    if entries.len() == 0 {
        assert(encode_text(entries, places) + rest =~= rest);
        assert(pair_lines(entries, places) + lines_of(rest) =~= lines_of(rest));
    } else {
        let init = entries.drop_last();
        let name = entries.last().0;
        let value = fmt_text(entries.last().1, NumberBase::Decimal, places);
        let feed = seq!['\n'];
        assert(plain_name(entries[entries.len() - 1].0));
        assert(plain_value(entries[entries.len() - 1].1, places));
        lemma_parse_undoes_fmt(entries.last().1, places);
        assert(plain_name(value)) by {
            assert forall|j: int| 0 <= j < value.len() implies value[j] != '\n' by {
                let c = value[j];
                assert(is_decimal_digit(c) || c == '-' || c == '.');
            }
            if value.len() > 0 {
                let c = value[value.len() - 1];
                assert(is_decimal_digit(c) || c == '-' || c == '.');
            }
        }
        let after_value = value + feed + rest;
        let after_name = name + feed + after_value;
        assert forall|i: int| 0 <= i < init.len() implies plain_name((#[trigger] init[i]).0) by {
            assert(init[i] == entries[i]);
        }
        assert forall|i: int| 0 <= i < init.len() implies plain_value(
            (#[trigger] init[i]).1,
            places,
        ) by {
            assert(init[i] == entries[i]);
        }
        lemma_lines_of_encoded(init, places, after_name);
        lemma_lines_of_line(name, after_value);
        lemma_lines_of_line(value, rest);
        assert(encode_text(entries, places) + rest =~= encode_text(init, places) + after_name);
        assert(pair_lines(entries, places) + lines_of(rest) =~= pair_lines(init, places) + (
        seq![name] + (seq![value] + lines_of(rest))));
    }
}

/// The entries read from the first pairs of lines do not depend on the
/// lines behind those pairs.
proof fn lemma_decode_pairs_prefix(a: Seq<Seq<char>>, b: Seq<Seq<char>>, pairs: nat)
    requires
        2 * pairs <= a.len(),
        2 * pairs <= b.len(),
        forall|j: int| 0 <= j < 2 * pairs ==> a[j] == b[j],
    ensures
        decode_pairs(a, pairs) == decode_pairs(b, pairs),
    decreases pairs,
{
    if pairs > 0 {
        lemma_decode_pairs_prefix(a, b, (pairs - 1) as nat);
    }
}

/// The lines of entries are two for each entry.
proof fn lemma_pair_lines_len(entries: Seq<(Seq<char>, real)>, places: nat)
    ensures
        pair_lines(entries, places).len() == 2 * entries.len(),
    decreases entries.len(),
{
    if entries.len() > 0 {
        lemma_pair_lines_len(entries.drop_last(), places);
    }
}

/// The lines of entries with distinct names and plain values read back as
/// the entries.
proof fn lemma_decode_pair_lines(entries: Seq<(Seq<char>, real)>, places: nat)
    requires
        distinct_names(entries),
        forall|i: int| 0 <= i < entries.len() ==> plain_value((#[trigger] entries[i]).1, places),
    ensures
        decode_pairs(pair_lines(entries, places), entries.len()) == entries,
    decreases entries.len(),
{
    if entries.len() > 0 {
        let init = entries.drop_last();
        let name = entries.last().0;
        let v = entries.last().1;
        let lines = pair_lines(entries, places);
        let n = entries.len() as int;
        lemma_pair_lines_len(entries, places);
        lemma_pair_lines_len(init, places);
        assert forall|i: int| 0 <= i < init.len() implies plain_value(
            (#[trigger] init[i]).1,
            places,
        ) by {
            assert(init[i] == entries[i]);
        }
        assert(distinct_names(init)) by {
            assert forall|i: int, j: int| 0 <= i < j < init.len() implies (#[trigger] init[i]).0
                != (#[trigger] init[j]).0 by {
                assert(init[i] == entries[i]);
                assert(init[j] == entries[j]);
            }
        }
        lemma_decode_pair_lines(init, places);
        lemma_decode_pairs_prefix(lines, pair_lines(init, places), init.len());
        assert(plain_value(entries[n - 1].1, places));
        lemma_parse_undoes_fmt(v, places);
        assert(lines[2 * n - 1] == fmt_text(v, NumberBase::Decimal, places));
        assert(lines[2 * n - 2] == name);
        assert forall|j: int| 0 <= j < init.len() implies (#[trigger] init[j]).0 != name by {
            assert(init[j] == entries[j]);
            assert(entries[j].0 != entries[n - 1].0);
        }
        lemma_index_of_name_is(init, name, init.len() as int);
        assert(init.push((name, v)) =~= entries);
    }
}

/// Reading undoes writing: a store whose names are distinct and can stand
/// on a line, and whose values are written in full, reads back from its
/// text form as it was, entry by entry.
pub proof fn lemma_decode_undoes_encode(entries: Seq<(Seq<char>, real)>, places: nat)
    requires
        distinct_names(entries),
        forall|i: int| 0 <= i < entries.len() ==> plain_name((#[trigger] entries[i]).0),
        forall|i: int| 0 <= i < entries.len() ==> plain_value((#[trigger] entries[i]).1, places),
    ensures
        decode_text(encode_text(entries, places)) == entries,
{
    let text = encode_text(entries, places);
    lemma_lines_of_encoded(entries, places, Seq::empty());
    assert(text + Seq::<char>::empty() =~= text);
    assert(pair_lines(entries, places) + lines_of(Seq::<char>::empty()) =~= pair_lines(
        entries,
        places,
    ));
    lemma_pair_lines_len(entries, places);
    lemma_decode_pair_lines(entries, places);
}

/// Numbers kept under names. Every store that this module makes holds each
/// name once, and `insert` keeps it so.
#[derive(Debug, PartialEq, Eq)]
pub struct Variables {
    entries: Vec<(String, Num)>,
}

impl View for Variables {
    type V = Seq<(Seq<char>, real)>;

    closed spec fn view(&self) -> Seq<(Seq<char>, real)> {
        Seq::new(self.entries@.len(), |i: int| (self.entries@[i].0@, self.entries@[i].1@))
    }
}

/// The lines of `data`.
fn lines<'a>(data: &'a str) -> (r: Vec<&'a str>)
    ensures
        r@.len() == lines_of(data@).len(),
        forall|i: int| 0 <= i < r@.len() ==> (#[trigger] r@[i])@ == lines_of(data@)[i],
{
    let mut out: Vec<&'a str> = Vec::new();
    let mut rest: &'a str = data;
    let ghost mut done: Seq<Seq<char>> = Seq::empty();
    loop
        invariant
            out@.len() == done.len(),
            forall|i: int| 0 <= i < out@.len() ==> (#[trigger] out@[i])@ == done[i],
            done + lines_of(rest@) == lines_of(data@),
        decreases rest@.len(),
    {
        let len = rest.unicode_len();
        if len == 0 {
            proof {
                assert(done + lines_of(rest@) =~= done);
            }
            return out;
        }
        let (line, tail) = split_once(rest, '\n');
        proof {
            lemma_first_index(rest@, '\n');
        }
        match tail {
            None => {
                proof {
                    assert(line@ =~= rest@);
                    assert(lines_of(rest@) =~= seq![rest@]);
                    assert(done.push(rest@) =~= done + lines_of(rest@));
                }
                out.push(line);
                return out;
            },
            Some(tail) => {
                let n = line.unicode_len();
                let line = if n > 0 && line.get_char(n - 1) == '\r' {
                    let short = line.substring_char(0, n - 1);
                    assert(short@ =~= line@.drop_last());
                    short
                } else {
                    line
                };
                proof {
                    assert(done.push(line@) + lines_of(tail@) =~= done + lines_of(rest@));
                    done = done.push(line@);
                }
                out.push(line);
                rest = tail;
            },
        }
    }
}

impl Variables {
    /// A store without variables.
    pub fn new() -> (r: Variables)
        ensures
            r@ == Seq::<(Seq<char>, real)>::empty(),
            distinct_names(r@),
    {
        let r = Variables { entries: Vec::new() };
        assert(r@ =~= Seq::empty());
        r
    }

    /// How many variables are kept.
    pub fn len(&self) -> (r: usize)
        ensures
            r == self@.len(),
    {
        self.entries.len()
    }

    /// Where the entry named `name` stands; the number of entries if there
    /// is none.
    fn position(&self, name: &str) -> (r: usize)
        ensures
            r == index_of_name(self@, name@),
            r <= self@.len(),
            self@.len() == self.entries@.len(),
    {
        let mut i: usize = 0;
        while i < self.entries.len() && !str_eq(self.entries[i].0.as_str(), name)
            invariant
                i <= self.entries@.len(),
                self@.len() == self.entries@.len(),
                forall|j: int| 0 <= j < i ==> (#[trigger] self@[j]).0 != name@,
            decreases self.entries@.len() - i,
        {
            i += 1;
        }
        proof {
            lemma_index_of_name_is(self@, name@, i as int);
        }
        i
    }

    /// The number kept under `name`, if any.
    pub fn get(&self, name: &str) -> (r: Option<&Num>)
        ensures
            match r {
                Some(n) => lookup(self@, name@) == Some(n@),
                None => lookup(self@, name@) is None,
            },
    {
        let i = self.position(name);
        if i < self.entries.len() {
            Some(&self.entries[i].1)
        } else {
            None
        }
    }

    /// Whether a number is kept under `name`.
    pub fn contains_key(&self, name: &str) -> (r: bool)
        ensures
            r == lookup(self@, name@) is Some,
    {
        let i = self.position(name);
        i < self.entries.len()
    }

    /// Keeps `n` under `name`, in place of what was kept there.
    pub fn insert(&mut self, name: String, n: Num)
        ensures
            final(self)@ == stored(old(self)@, name@, n@),
            distinct_names(old(self)@) ==> distinct_names(final(self)@),
    {
        proof {
            if distinct_names(self@) {
                lemma_stored(self@, name@, n@);
            }
        }
        let ghost before = self@;
        let i = self.position(name.as_str());
        if i < self.entries.len() {
            self.entries.set(i, (name, n));
        } else {
            self.entries.push((name, n));
        }
        assert(self@ =~= stored(before, name@, n@));
    }

    /// Forgets every variable.
    pub fn clear(&mut self)
        ensures
            final(self)@ == Seq::<(Seq<char>, real)>::empty(),
    {
        self.entries = Vec::new();
        assert(self@ =~= Seq::empty());
    }

    /// The text form of the store, with at most `max_fractional_places`
    /// fractional digits for each value.
    pub fn encode(&self, max_fractional_places: u32) -> (r: String)
        ensures
            r@ == encode_text(self@, max_fractional_places as nat),
    {
        let mut out = String::new();
        let mut i: usize = 0;
        proof {
            reveal_strlit("\n");
            assert("\n"@ =~= seq!['\n']);
            assert(self@.subrange(0, 0) =~= Seq::empty());
        }
        while i < self.entries.len()
            invariant
                i <= self.entries@.len(),
                self@.len() == self.entries@.len(),
                "\n"@ == seq!['\n'],
                out@ == encode_text(self@.subrange(0, i as int), max_fractional_places as nat),
            decreases self.entries@.len() - i,
        {
            let value = fmt(self.entries[i].1.clone(), NumberBase::Decimal, max_fractional_places);
            out.append(self.entries[i].0.as_str());
            out.append("\n");
            out.append(value.as_str());
            out.append("\n");
            proof {
                let upto = self@.subrange(0, i + 1);
                assert(upto.drop_last() =~= self@.subrange(0, i as int));
                assert(upto.last() == self@[i as int]);
            }
            i += 1;
        }
        proof {
            assert(self@.subrange(0, i as int) =~= self@);
        }
        out
    }

    /// The store that a text holds: a variable for each pair of lines whose
    /// second line is a decimal number.
    pub fn decode(data: &str) -> (r: Variables)
        ensures
            r@ == decode_text(data@),
            distinct_names(r@),
    {
        let all = lines(data);
        let count = all.len();
        let pairs = count / 2;
        let mut store = Variables::new();
        let mut i: usize = 0;
        while i < pairs
            invariant
                i <= pairs,
                pairs == count / 2,
                count == all@.len(),
                all@.len() == lines_of(data@).len(),
                forall|k: int| 0 <= k < all@.len() ==> (#[trigger] all@[k])@ == lines_of(data@)[k],
                store@ == decode_pairs(lines_of(data@), i as nat),
                distinct_names(store@),
            decreases pairs - i,
        {
            assert(2 * i + 1 < all@.len());
            let name = all[2 * i];
            let value = all[2 * i + 1];
            match parse(String::from_str(value)) {
                Some(n) => {
                    store.insert(String::from_str(name), n);
                },
                None => {},
            }
            i += 1;
        }
        store
    }
}

impl Clone for Variables {
    fn clone(&self) -> (r: Self)
        ensures
            r@ == self@,
    {
        let mut entries: Vec<(String, Num)> = Vec::new();
        let mut i: usize = 0;
        while i < self.entries.len()
            invariant
                i <= self.entries@.len(),
                entries@.len() == i,
                forall|k: int|
                    0 <= k < i ==> (#[trigger] entries@[k]).0@ == self.entries@[k].0@
                        && entries@[k].1@ == self.entries@[k].1@,
            decreases self.entries@.len() - i,
        {
            entries.push((self.entries[i].0.clone(), self.entries[i].1.clone()));
            i += 1;
        }
        let r = Variables { entries };
        assert(r@ =~= self@);
        r
    }
}

} // verus!
