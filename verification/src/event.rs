//! Field values recorded on events and spans, and the name-to-value
//! collection that holds them.

use vstd::prelude::*;
use vstd::string::StringExecFns;

verus! {

/// A value recorded for a field of an event or a span.
#[derive(Debug, PartialEq)]
pub enum FieldValue {
    /// A string.
    Str(String),
    /// A signed integer.
    I64(i64),
    /// An unsigned integer.
    U64(u64),
    /// A boolean.
    Bool(bool),
    /// A finite floating-point number, held as its JSON text.
    Float(String),
}

/// What a `FieldValue` holds.
pub enum FieldView {
    Str(Seq<char>),
    I64(i64),
    U64(u64),
    Bool(bool),
    Float(Seq<char>),
}

impl View for FieldValue {
    type V = FieldView;

    open spec fn view(&self) -> FieldView {
        match self {
            FieldValue::Str(s) => FieldView::Str(s@),
            FieldValue::I64(n) => FieldView::I64(*n),
            FieldValue::U64(n) => FieldView::U64(*n),
            FieldValue::Bool(b) => FieldView::Bool(*b),
            FieldValue::Float(t) => FieldView::Float(t@),
        }
    }
}

/// The character of the decimal digit `d`.
pub open spec fn digit_char(d: nat) -> char {
    (48 + d) as char
}

/// The decimal digits of `n`, most significant first, without leading zeros.
pub open spec fn decimal_digits(n: nat) -> Seq<char>
    decreases n,
{
    if n < 10 {
        seq![digit_char(n)]
    } else {
        decimal_digits(n / 10).push(digit_char(n % 10))
    }
}

/// The number that a text of decimal digits stands for.
pub open spec fn digits_value(s: Seq<char>) -> int
    decreases s.len(),
{
    if s.len() == 0 {
        0
    } else {
        digits_value(s.drop_last()) * 10 + ((s.last() as u32) - 48)
    }
}

/// The decimal text of `n` is made of digits `0` to `9`, starts with a
/// nonzero digit unless `n` is 0, and stands for `n`.
pub proof fn lemma_decimal_digits(n: nat)
    ensures
        decimal_digits(n).len() >= 1,
        forall|i: int|
            0 <= i < decimal_digits(n).len() ==> 48 <= (#[trigger] decimal_digits(n)[i] as u32) <= 57,
        n > 0 ==> decimal_digits(n)[0] != '0',
        digits_value(decimal_digits(n)) == n,
    decreases n,
{
    if n < 10 {
        assert(decimal_digits(n) == seq![digit_char(n)]);
        assert(decimal_digits(n).drop_last() =~= Seq::<char>::empty());
        assert((digit_char(n) as u32) == 48 + n);
        assert(decimal_digits(n).last() == digit_char(n));
        assert(digits_value(decimal_digits(n).drop_last()) == 0);
        assert(digits_value(decimal_digits(n)) == n);
    } else {
        let q = n / 10;
        let r = n % 10;
        lemma_decimal_digits(q);
        let d = decimal_digits(n);
        let p = decimal_digits(q);
        assert(d == p.push(digit_char(r)));
        assert(d.drop_last() =~= p);
        assert((digit_char(r) as u32) == 48 + r);
        assert(d.last() == digit_char(r));
        assert(digits_value(d) == digits_value(p) * 10 + r);
        assert(d[0] == p[0]);
        assert forall|i: int| 0 <= i < d.len() implies 48 <= (#[trigger] d[i] as u32) <= 57 by {
            if i < p.len() {
                assert(d[i] == p[i]);
            }
        }
        assert(n == q * 10 + r) by (nonlinear_arith)
            requires
                q == n / 10,
                r == n % 10,
        ;
    }
}

/// The decimal text of `n`, with a leading `-` when it is negative.
pub open spec fn signed_decimal(n: int) -> Seq<char> {
    if n < 0 {
        seq!['-'] + decimal_digits((-n) as nat)
    } else {
        decimal_digits(n as nat)
    }
}

/// The text of a value: a string as it is, any other value as its JSON text.
pub open spec fn value_text(v: FieldView) -> Seq<char> {
    match v {
        FieldView::Str(s) => s,
        FieldView::I64(n) => signed_decimal(n as int),
        FieldView::U64(n) => decimal_digits(n as nat),
        FieldView::Bool(b) => if b {
            "true"@
        } else {
            "false"@
        },
        FieldView::Float(t) => t,
    }
}

/// The text of each kind of value: a string is itself, an integer is its
/// decimal digits (after `-` when negative), a boolean is `true` or `false`,
/// and a floating-point number is the JSON text that it holds.
pub proof fn lemma_value_text(v: FieldView)
    ensures
        v matches FieldView::Str(s) ==> value_text(v) == s,
        v matches FieldView::I64(n) ==> value_text(v) == (if n < 0 {
            seq!['-'] + decimal_digits((-n) as nat)
        } else {
            decimal_digits(n as nat)
        }),
        v matches FieldView::U64(n) ==> value_text(v) == decimal_digits(n as nat),
        v matches FieldView::Bool(b) ==> value_text(v) == (if b {
            "true"@
        } else {
            "false"@
        }),
        v matches FieldView::Float(text) ==> value_text(v) == text,
{
}

/// Formats `n` as a JSON number with `serde_json::Number`'s `Display`,
/// which writes an unsigned integer in decimal digits.
#[verifier::external_body]
fn json_unsigned_text(n: u64) -> (text: String)
    ensures
        text@ == decimal_digits(n as nat),
{
    serde_json::Number::from(n).to_string()
}

impl FieldValue {
    /// The text of the value: a string as it is, any other value as its JSON text.
    pub fn to_text(&self) -> (text: String)
        ensures
            text@ == value_text(self@),
    {
        match self {
            FieldValue::Str(s) => s.clone(),
            FieldValue::I64(n) => {
                if *n < 0 {
                    let magnitude: u64 = ((-(*n + 1)) as u64) + 1;
                    let mut text = String::from_str("-");
                    let digits = json_unsigned_text(magnitude);
                    text.append(digits.as_str());
                    proof {
                        reveal_strlit("-");
                        assert(text@ =~= signed_decimal(*n as int));
                    }
                    text
                } else {
                    json_unsigned_text(*n as u64)
                }
            },
            FieldValue::U64(n) => json_unsigned_text(*n),
            FieldValue::Bool(b) => {
                if *b {
                    String::from_str("true")
                } else {
                    String::from_str("false")
                }
            },
            FieldValue::Float(t) => t.clone(),
        }
    }
}

impl Clone for FieldValue {
    /// A value holding the same.
    fn clone(&self) -> (v: Self)
        ensures
            v@ == self@,
    {
        match self {
            FieldValue::Str(s) => FieldValue::Str(s.clone()),
            FieldValue::I64(n) => FieldValue::I64(*n),
            FieldValue::U64(n) => FieldValue::U64(*n),
            FieldValue::Bool(b) => FieldValue::Bool(*b),
            FieldValue::Float(t) => FieldValue::Float(t.clone()),
        }
    }
}

/// The map that a sequence of named entries stands for; a later entry of a
/// name replaces an earlier one.
pub open spec fn entries_map(s: Seq<(Seq<char>, FieldView)>) -> Map<Seq<char>, FieldView>
    decreases s.len(),
{
    if s.len() == 0 {
        Map::empty()
    } else {
        entries_map(s.drop_last()).insert(s.last().0, s.last().1)
    }
}

/// No two entries share a name.
pub open spec fn unique_names(s: Seq<(Seq<char>, FieldView)>) -> bool {
    forall|i: int, j: int| 0 <= i < s.len() && 0 <= j < s.len() && i != j ==> #[trigger] s[i].0 != #[trigger] s[j].0
}

/// The entry at `i` is named `name`.
pub open spec fn named_at(s: Seq<(Seq<char>, FieldView)>, i: int, name: Seq<char>) -> bool {
    0 <= i < s.len() && s[i].0 == name
}

/// With unique names, the map holds exactly the entries, one key per entry.
pub proof fn lemma_entries_map(s: Seq<(Seq<char>, FieldView)>)
    requires
        unique_names(s),
    ensures
        forall|k: Seq<char>|
            #![trigger entries_map(s).contains_key(k)]
            entries_map(s).contains_key(k) <==> exists|i: int| #[trigger] named_at(s, i, k),
        forall|i: int| 0 <= i < s.len() ==> entries_map(s).contains_key(#[trigger] s[i].0) && entries_map(s)[s[i].0] == s[i].1,
        entries_map(s).dom().finite(),
        entries_map(s).dom().len() == s.len(),
    decreases s.len(),
{
    if s.len() > 0 {
        let t = s.drop_last();
        assert(unique_names(t)) by {
            assert forall|i: int, j: int| 0 <= i < t.len() && 0 <= j < t.len() && i != j implies #[trigger] t[i].0 != #[trigger] t[j].0 by {
                assert(t[i] == s[i] && t[j] == s[j]);
            }
        }
        lemma_entries_map(t);
        let last = s.last();
        assert(!entries_map(t).contains_key(last.0)) by {
            if entries_map(t).contains_key(last.0) {
                let i = choose|i: int| #[trigger] named_at(t, i, last.0);
                assert(s[i].0 == s[s.len() - 1].0);
            }
        }
        assert forall|k: Seq<char>|
            #![trigger entries_map(s).contains_key(k)]
            entries_map(s).contains_key(k) <==> exists|i: int| #[trigger] named_at(s, i, k) by {
            if entries_map(s).contains_key(k) {
                if k == last.0 {
                    assert(named_at(s, s.len() - 1, k));
                } else {
                    let i = choose|i: int| #[trigger] named_at(t, i, k);
                    assert(named_at(s, i, k));
                }
            }
            if exists|i: int| #[trigger] named_at(s, i, k) {
                let i = choose|i: int| #[trigger] named_at(s, i, k);
                if i < s.len() - 1 {
                    assert(named_at(t, i, k));
                }
            }
        }
        assert forall|i: int| 0 <= i < s.len() implies entries_map(s).contains_key(#[trigger] s[i].0) && entries_map(s)[s[i].0] == s[i].1 by {
            if i < s.len() - 1 {
                assert(t[i] == s[i]);
                assert(s[i].0 != last.0);
            }
        }
    }
}

/// A collection of named field values, each name at most once.
#[derive(Debug, PartialEq)]
pub struct Fields {
    entries: Vec<(String, FieldValue)>,
}

/// The names and values that a vector of entries holds.
pub open spec fn entry_views(entries: Seq<(String, FieldValue)>) -> Seq<(Seq<char>, FieldView)> {
    entries.map_values(|e: (String, FieldValue)| (e.0@, e.1@))
}

impl View for Fields {
    type V = Map<Seq<char>, FieldView>;

    /// The value of each name.
    closed spec fn view(&self) -> Map<Seq<char>, FieldView> {
        entries_map(entry_views(self.entries@))
    }
}

impl Fields {
    /// No name occurs twice.
    #[verifier::type_invariant]
    closed spec fn names_are_unique(self) -> bool {
        unique_names(entry_views(self.entries@))
    }

    /// An empty collection.
    pub fn new() -> (fields: Self)
        ensures
            fields@ == Map::<Seq<char>, FieldView>::empty(),
    {
        let fields = Fields { entries: Vec::new() };
        assert(entry_views(fields.entries@) =~= Seq::empty());
        fields
    }

    /// The entries, each name once, in no particular order.
    pub fn entries(&self) -> (entries: &Vec<(String, FieldValue)>)
        ensures
            unique_names(entry_views(entries@)),
            entries_map(entry_views(entries@)) == self@,
    {
        proof {
            use_type_invariant(self);
        }
        &self.entries
    }

    /// The number of names.
    pub fn len(&self) -> (n: usize)
        ensures
            self@.dom().finite(),
            n == self@.dom().len(),
    {
        proof {
            use_type_invariant(self);
            lemma_entries_map(entry_views(self.entries@));
        }
        self.entries.len()
    }

    /// Whether the collection holds no name.
    pub fn is_empty(&self) -> (empty: bool)
        ensures
            empty <==> self@ == Map::<Seq<char>, FieldView>::empty(),
    {
        proof {
            use_type_invariant(self);
            lemma_entries_map(entry_views(self.entries@));
        }
        let empty = self.entries.len() == 0;
        proof {
            if empty {
                assert(entry_views(self.entries@) =~= Seq::empty());
            } else {
                let e = entry_views(self.entries@)[0];
                assert(self@.contains_key(e.0));
            }
        }
        empty
    }

    /// The position of the entry named `name`.
    fn position(&self, name: &str) -> (i: Option<usize>)
        ensures
            match i {
                Some(i) => i < self.entries@.len() && self.entries@[i as int].0@ == name@,
                None => !self@.contains_key(name@),
            },
    {
        proof {
            use_type_invariant(self);
            lemma_entries_map(entry_views(self.entries@));
        }
        let ghost s = entry_views(self.entries@);
        let key = name.to_owned();
        let mut i: usize = 0;
        while i < self.entries.len()
            invariant
                i <= self.entries@.len(),
                s == entry_views(self.entries@),
                key@ == name@,
                forall|j: int| 0 <= j < i ==> s[j].0 != name@,
            decreases self.entries@.len() - i,
        {
            if self.entries[i].0 == key {
                return Some(i);
            }
            i = i + 1;
        }
        proof {
            if self@.contains_key(name@) {
                let j = choose|j: int| #[trigger] named_at(s, j, name@);
                assert(s[j].0 != name@);
            }
        }
        None
    }

    /// Whether a value is recorded for `name`.
    pub fn contains_key(&self, name: &str) -> (found: bool)
        ensures
            found == self@.contains_key(name@),
    {
        proof {
            use_type_invariant(self);
            lemma_entries_map(entry_views(self.entries@));
        }
        match self.position(name) {
            Some(i) => {
                assert(entry_views(self.entries@)[i as int].0 == name@);
                true
            },
            None => false,
        }
    }

    /// The value recorded for `name`, if any.
    pub fn get(&self, name: &str) -> (value: Option<&FieldValue>)
        ensures
            value is Some <==> self@.contains_key(name@),
            value matches Some(v) ==> v@ == self@[name@],
    {
        proof {
            use_type_invariant(self);
            lemma_entries_map(entry_views(self.entries@));
        }
        match self.position(name) {
            Some(i) => {
                assert(entry_views(self.entries@)[i as int].0 == name@);
                Some(&self.entries[i].1)
            },
            None => None,
        }
    }

    /// Takes the entries out, leaving the collection empty.
    fn take_entries(&mut self) -> (entries: Vec<(String, FieldValue)>)
        ensures
            entries@ == old(self).entries@,
            unique_names(entry_views(entries@)),
            entries_map(entry_views(entries@)) == old(self)@,
            final(self)@ == Map::<Seq<char>, FieldView>::empty(),
    {
        proof {
            use_type_invariant(&*self);
        }
        let mut entries: Vec<(String, FieldValue)> = Vec::new();
        assert(entry_views(entries@) =~= Seq::empty());
        std::mem::swap(&mut entries, &mut self.entries);
        entries
    }

    /// Puts `entries` in as the new contents.
    fn put_entries(&mut self, entries: Vec<(String, FieldValue)>)
        requires
            unique_names(entry_views(entries@)),
        ensures
            final(self)@ == entries_map(entry_views(entries@)),
    {
        self.entries = entries;
    }

    /// Records `value` for `name`, replacing any earlier value of the name.
    pub fn insert(&mut self, name: &str, value: FieldValue)
        ensures
            final(self)@ == old(self)@.insert(name@, value@),
    {
        let removed = self.remove(name);
        let ghost without = self@;
        let mut entries = self.take_entries();
        let ghost before = entry_views(entries@);
        proof {
            lemma_entries_map(before);
        }
        entries.push((name.to_owned(), value));
        proof {
            let after = entry_views(entries@);
            assert(after =~= before.push((name@, value@)));
            assert(after.drop_last() =~= before);
            assert(unique_names(after)) by {
                assert forall|i: int, j: int| 0 <= i < after.len() && 0 <= j < after.len() && i != j implies #[trigger] after[i].0 != #[trigger] after[j].0 by {
                    if i < before.len() && j < before.len() {
                        assert(after[i] == before[i] && after[j] == before[j]);
                    } else if i < before.len() {
                        assert(after[i] == before[i]);
                        assert(entries_map(before).contains_key(before[i].0));
                    } else if j < before.len() {
                        assert(after[j] == before[j]);
                        assert(entries_map(before).contains_key(before[j].0));
                    }
                }
            }
            assert(entries_map(after) =~= old(self)@.insert(name@, value@));
        }
        self.put_entries(entries);
    }

    /// Removes the value recorded for `name` and returns it, if any.
    pub fn remove(&mut self, name: &str) -> (value: Option<FieldValue>)
        ensures
            final(self)@ == old(self)@.remove(name@),
            value is Some <==> old(self)@.contains_key(name@),
            value matches Some(v) ==> v@ == old(self)@[name@],
    {
        match self.position(name) {
            None => {
                assert(self@ =~= old(self)@.remove(name@));
                None
            },
            Some(i) => {
                let mut entries = self.take_entries();
                let ghost before = entry_views(entries@);
                proof {
                    lemma_entries_map(before);
                }
                let ghost removed = entries@[i as int];
                let (_, value) = entries.remove(i);
                proof {
                    assert(before[i as int] == (removed.0@, removed.1@));
                    assert(before[i as int].0 == name@);
                    assert(entries_map(before) == old(self)@);
                    assert(old(self)@[name@] == before[i as int].1);
                    let after = entry_views(entries@);
                    assert(after =~= before.remove(i as int));
                    assert(unique_names(after)) by {
                        assert forall|a: int, b: int| 0 <= a < after.len() && 0 <= b < after.len() && a != b implies #[trigger] after[a].0 != #[trigger] after[b].0 by {
                            let a0 = if a < i { a } else { a + 1 };
                            let b0 = if b < i { b } else { b + 1 };
                            assert(after[a] == before[a0] && after[b] == before[b0]);
                        }
                    }
                    lemma_entries_map(after);
                    assert forall|k: Seq<char>| #[trigger] entries_map(after).contains_key(k) <==> old(self)@.remove(name@).contains_key(k) by {
                        if entries_map(after).contains_key(k) {
                            let a = choose|a: int| #[trigger] named_at(after, a, k);
                            let a0 = if a < i { a } else { a + 1 };
                            assert(after[a] == before[a0]);
                            assert(before[a0].0 != before[i as int].0);
                        }
                        if old(self)@.remove(name@).contains_key(k) {
                            let b = choose|b: int| #[trigger] named_at(before, b, k);
                            assert(b != i);
                            let a = if b < i { b } else { b - 1 };
                            assert(after[a] == before[b]);
                            assert(named_at(after, a, k));
                        }
                    }
                    assert forall|k: Seq<char>| #[trigger] entries_map(after).contains_key(k) implies entries_map(after)[k] == old(self)@[k] by {
                        let a = choose|a: int| #[trigger] named_at(after, a, k);
                        let a0 = if a < i { a } else { a + 1 };
                        assert(after[a] == before[a0]);
                    }
                    assert(entries_map(after) =~= old(self)@.remove(name@));
                }
                self.put_entries(entries);
                Some(value)
            },
        }
    }

    /// Records each value of `inherited` whose name holds no value yet;
    /// values already recorded win.
    pub fn inherit(&mut self, inherited: &Fields)
        ensures
            final(self)@ == inherited@.union_prefer_right(old(self)@),
    {
        proof {
            use_type_invariant(inherited);
        }
        let ghost s = entry_views(inherited.entries@);
        let mut i: usize = 0;
        assert(entries_map(s.take(0)) =~= Map::<Seq<char>, FieldView>::empty());
        assert(self@ =~= entries_map(s.take(0)).union_prefer_right(old(self)@));
        while i < inherited.entries.len()
            invariant
                i <= inherited.entries@.len(),
                s == entry_views(inherited.entries@),
                unique_names(s),
                self@ == entries_map(s.take(i as int)).union_prefer_right(old(self)@),
            decreases inherited.entries@.len() - i,
        {
            let name = inherited.entries[i].0.as_str();
            let ghost prev = self@;
            proof {
                let t = s.take(i as int);
                assert(unique_names(t)) by {
                    assert forall|a: int, b: int| 0 <= a < t.len() && 0 <= b < t.len() && a != b implies #[trigger] t[a].0 != #[trigger] t[b].0 by {
                        assert(t[a] == s[a] && t[b] == s[b]);
                    }
                }
                lemma_entries_map(t);
                if entries_map(t).contains_key(s[i as int].0) {
                    let j = choose|j: int| #[trigger] named_at(t, j, s[i as int].0);
                    assert(t[j] == s[j]);
                }
                assert(s[i as int].0 == name@);
            }
            if !self.contains_key(name) {
                let value = inherited.entries[i].1.clone();
                self.insert(name, value);
            }
            proof {
                assert(s.take(i + 1).drop_last() =~= s.take(i as int));
                assert(s.take(i + 1).last() == s[i as int]);
                assert(self@ =~= entries_map(s.take(i + 1)).union_prefer_right(old(self)@));
            }
            i = i + 1;
        }
        assert(s.take(i as int) =~= s);
    }
}

impl Clone for Fields {
    /// A collection with the same names and values.
    fn clone(&self) -> (fields: Self)
        ensures
            fields@ == self@,
    {
        proof {
            use_type_invariant(self);
        }
        let mut entries: Vec<(String, FieldValue)> = Vec::new();
        let mut i: usize = 0;
        while i < self.entries.len()
            invariant
                i <= self.entries@.len(),
                entries@.len() == i,
                forall|j: int| 0 <= j < i ==> #[trigger] entries@[j].0@ == self.entries@[j].0@ && entries@[j].1@ == self.entries@[j].1@,
            decreases self.entries@.len() - i,
        {
            let name = self.entries[i].0.clone();
            let value = self.entries[i].1.clone();
            let ghost prev = entries@;
            entries.push((name, value));
            assert(forall|j: int| 0 <= j < i ==> entries@[j] == prev[j]);
            i = i + 1;
        }
        assert(entry_views(entries@) =~= entry_views(self.entries@));
        Fields { entries }
    }
}

/// Removes the `message` field and returns its text: a string as it is,
/// any other value as its JSON text, and the empty string when there is none.
pub fn take_message(fields: &mut Fields) -> (message: String)
    ensures
        final(fields)@ == old(fields)@.remove("message"@),
        message@ == (if old(fields)@.contains_key("message"@) {
            value_text(old(fields)@["message"@])
        } else {
            Seq::empty()
        }),
{
    match fields.remove("message") {
        Some(value) => value.to_text(),
        None => String::new(),
    }
}

} // verus!
