//! Validated Datadog tags.
//!
//! Datadog tags are `key:value` pairs (or bare values) joined by commas. A
//! tag must start with a letter, may hold letters, digits, `_`, `-`, `.`,
//! `/` and `@` (and `:` in a value), and is at most 200 characters long.

use vstd::prelude::*;
use vstd::string::StrSliceExecFns;
use vstd::string::StringExecFns;

verus! {

/// What `char::is_alphabetic` answers for a character (its Unicode
/// `Alphabetic` property).
pub uninterp spec fn is_alphabetic(c: char) -> bool;

/// What `char::is_alphanumeric` answers for a character (its Unicode
/// `Alphabetic` or `Numeric` property).
pub uninterp spec fn is_alphanumeric(c: char) -> bool;

/// An ASCII character.
pub open spec fn is_ascii_char(c: char) -> bool {
    (c as u32) < 128
}

/// An ASCII letter.
pub open spec fn is_ascii_letter(c: char) -> bool {
    (65 <= (c as u32) <= 90) || (97 <= (c as u32) <= 122)
}

/// An ASCII letter or decimal digit.
pub open spec fn is_ascii_letter_or_digit(c: char) -> bool {
    is_ascii_letter(c) || (48 <= (c as u32) <= 57)
}

/// Calls `char::is_alphabetic`; the contract ties the answer to the name
/// `is_alphabetic` of the character and states what std documents for ASCII
/// characters: the alphabetic ones are the letters.
#[verifier::external_body]
fn char_is_alphabetic(c: char) -> (r: bool)
    ensures
        r == is_alphabetic(c),
        is_ascii_char(c) ==> (r <==> is_ascii_letter(c)),
{
    c.is_alphabetic()
}

/// Calls `char::is_alphanumeric`; the contract ties the answer to the name
/// `is_alphanumeric` of the character and states what std documents for
/// ASCII characters: the alphanumeric ones are the letters and digits.
#[verifier::external_body]
fn char_is_alphanumeric(c: char) -> (r: bool)
    ensures
        r == is_alphanumeric(c),
        is_ascii_char(c) ==> (r <==> is_ascii_letter_or_digit(c)),
{
    c.is_alphanumeric()
}

/// Why a tag was refused.
#[derive(Clone, Debug, PartialEq, Eq)]
pub enum TagError {
    /// The tag (or its key) is empty.
    Empty,
    /// The tag (or its key) does not start with a letter.
    MustStartWithLetter,
    /// The `part` (`"key"` or `"value"`) holds a character that tags may not hold.
    InvalidCharacter { part: &'static str, character: char },
    /// The tag has more than 200 characters.
    TooLong { characters: usize },
}

/// The longest tag that Datadog accepts, in characters.
pub const MAX_TAG_CHARACTERS: usize = 200;

/// A character that may stand in a tag key (`allow_colon == false`) or in a
/// tag value (`allow_colon == true`).
pub open spec fn allowed_char(c: char, allow_colon: bool) -> bool {
    ||| is_alphanumeric(c)
    ||| c == '_' || c == '-' || c == '.' || c == '/' || c == '@'
    ||| allow_colon && c == ':'
}

/// The first character of `s` that may not stand in it, if any.
pub open spec fn first_disallowed(s: Seq<char>, allow_colon: bool) -> Option<char>
    decreases s.len(),
{
    if s.len() == 0 {
        None
    } else if !allowed_char(s[0], allow_colon) {
        Some(s[0])
    } else {
        first_disallowed(s.drop_first(), allow_colon)
    }
}

/// The outcome of checking that a tag (or a key) starts with a letter.
pub open spec fn start_check(s: Seq<char>) -> Result<(), TagError> {
    if s.len() == 0 {
        Err(TagError::Empty)
    } else if is_alphabetic(s[0]) {
        Ok(())
    } else {
        Err(TagError::MustStartWithLetter)
    }
}

/// The outcome of checking the characters of the `part` of a tag.
pub open spec fn characters_check(part: &'static str, s: Seq<char>, allow_colon: bool) -> Result<
    (),
    TagError,
> {
    match first_disallowed(s, allow_colon) {
        Some(c) => Err(TagError::InvalidCharacter { part, character: c }),
        None => Ok(()),
    }
}

/// The outcome of checking the length of a tag of `characters` characters.
pub open spec fn length_check(characters: usize) -> Result<(), TagError> {
    if characters > MAX_TAG_CHARACTERS {
        Err(TagError::TooLong { characters })
    } else {
        Ok(())
    }
}

/// The outcome of checking a `key:value` tag: the start of the key, then the
/// characters of the key, then those of the value, then the length.
pub open spec fn key_value_check(key: Seq<char>, value: Seq<char>) -> Result<(), TagError> {
    if start_check(key) is Err {
        start_check(key)
    } else if characters_check("key", key, false) is Err {
        characters_check("key", key, false)
    } else if characters_check("value", value, true) is Err {
        characters_check("value", value, true)
    } else {
        length_check((key.len() + 1 + value.len()) as usize)
    }
}

/// The outcome of checking a tag without a value: its start, its characters
/// (checked as a value), then its length.
pub open spec fn bare_check(tag: Seq<char>) -> Result<(), TagError> {
    if start_check(tag) is Err {
        start_check(tag)
    } else if characters_check("value", tag, true) is Err {
        characters_check("value", tag, true)
    } else {
        length_check(tag.len() as usize)
    }
}

/// The text of a `key:value` tag.
pub open spec fn key_value_tag(key: Seq<char>, value: Seq<char>) -> Seq<char> {
    key + seq![':'] + value
}

/// A tag that passes the checks of a tag without a value: it starts with a
/// letter, holds only characters allowed in a value, and has at most 200
/// characters.
pub open spec fn tag_shape(tag: Seq<char>) -> bool {
    &&& 0 < tag.len() <= MAX_TAG_CHARACTERS
    &&& is_alphabetic(tag[0])
    &&& forall|i: int| 0 <= i < tag.len() ==> allowed_char(#[trigger] tag[i], true)
}

/// A tag as it stands in the encoded text: it has the shape of a tag and
/// holds no comma.
pub open spec fn valid_tag(tag: Seq<char>) -> bool {
    tag_shape(tag) && !tag.contains(',')
}

/// Tags joined by commas.
pub open spec fn join_tags(tags: Seq<Seq<char>>) -> Seq<char>
    decreases tags.len(),
{
    if tags.len() == 0 {
        Seq::empty()
    } else if tags.len() == 1 {
        tags[0]
    } else {
        join_tags(tags.drop_last()) + seq![','] + tags.last()
    }
}

/// `text` with `tag` appended, after a comma when `text` is not empty.
pub open spec fn append_tag(text: Seq<char>, tag: Seq<char>) -> Seq<char> {
    if text.len() == 0 {
        tag
    } else {
        text + seq![','] + tag
    }
}

/// `text` is a comma-separated list of valid tags.
pub open spec fn is_tag_list(text: Seq<char>) -> bool {
    exists|tags: Seq<Seq<char>>|
        #![trigger join_tags(tags)]
        join_tags(tags) == text && forall|i: int| 0 <= i < tags.len() ==> valid_tag(#[trigger] tags[i])
}

/// A character that may stand in a key (`allow_colon == false`) or in a
/// value (`allow_colon == true`), given whether it is alphanumeric.
pub open spec fn allowed_given(c: char, alphanumeric: bool, allow_colon: bool) -> bool {
    ||| alphanumeric
    ||| c == '_' || c == '-' || c == '.' || c == '/' || c == '@'
    ||| allow_colon && c == ':'
}

/// The first character of `s` that may not stand in it, given for each
/// character whether it is alphanumeric.
pub open spec fn first_disallowed_given(s: Seq<char>, alphanumeric: Seq<bool>, allow_colon: bool) -> Option<
    char,
>
    decreases s.len(),
{
    if s.len() == 0 {
        None
    } else if !allowed_given(s[0], alphanumeric[0], allow_colon) {
        Some(s[0])
    } else {
        first_disallowed_given(s.drop_first(), alphanumeric.drop_first(), allow_colon)
    }
}

/// The outcome of checking that a tag (or a key) starts with a letter, given
/// whether its first character is alphabetic.
pub open spec fn start_check_given(s: Seq<char>, starts_alphabetic: bool) -> Result<(), TagError> {
    if s.len() == 0 {
        Err(TagError::Empty)
    } else if starts_alphabetic {
        Ok(())
    } else {
        Err(TagError::MustStartWithLetter)
    }
}

/// The outcome of checking the characters of the `part` of a tag, given for
/// each character whether it is alphanumeric.
pub open spec fn characters_check_given(
    part: &'static str,
    s: Seq<char>,
    alphanumeric: Seq<bool>,
    allow_colon: bool,
) -> Result<(), TagError> {
    match first_disallowed_given(s, alphanumeric, allow_colon) {
        Some(c) => Err(TagError::InvalidCharacter { part, character: c }),
        None => Ok(()),
    }
}

/// The outcome of checking a `key:value` tag, given whether the key starts
/// with an alphabetic character and which characters are alphanumeric.
pub open spec fn key_value_check_given(
    key: Seq<char>,
    value: Seq<char>,
    key_starts_alphabetic: bool,
    key_alphanumeric: Seq<bool>,
    value_alphanumeric: Seq<bool>,
) -> Result<(), TagError> {
    if start_check_given(key, key_starts_alphabetic) is Err {
        start_check_given(key, key_starts_alphabetic)
    } else if characters_check_given("key", key, key_alphanumeric, false) is Err {
        characters_check_given("key", key, key_alphanumeric, false)
    } else if characters_check_given("value", value, value_alphanumeric, true) is Err {
        characters_check_given("value", value, value_alphanumeric, true)
    } else {
        length_check((key.len() + 1 + value.len()) as usize)
    }
}

/// The outcome of checking a tag without a value, given whether it starts
/// with an alphabetic character and which characters are alphanumeric.
pub open spec fn bare_check_given(tag: Seq<char>, starts_alphabetic: bool, alphanumeric: Seq<bool>) -> Result<
    (),
    TagError,
> {
    if start_check_given(tag, starts_alphabetic) is Err {
        start_check_given(tag, starts_alphabetic)
    } else if characters_check_given("value", tag, alphanumeric, true) is Err {
        characters_check_given("value", tag, alphanumeric, true)
    } else {
        length_check(tag.len() as usize)
    }
}

/// For each character of `s`, whether `char::is_alphanumeric` holds of it.
pub open spec fn alphanumeric_answers(s: Seq<char>) -> Seq<bool> {
    s.map_values(|c: char| is_alphanumeric(c))
}

/// Whether `s` starts with a character of which `char::is_alphabetic` holds.
pub open spec fn starts_alphabetic(s: Seq<char>) -> bool {
    s.len() > 0 && is_alphabetic(s[0])
}

/// Answers for the characters of `s` that agree with std on ASCII
/// characters: an ASCII character is alphanumeric exactly when it is a letter
/// or a digit.
pub open spec fn answers_fit(s: Seq<char>, alphanumeric: Seq<bool>) -> bool {
    &&& alphanumeric.len() == s.len()
    &&& forall|i: int|
        0 <= i < s.len() && is_ascii_char(#[trigger] s[i]) ==> (alphanumeric[i]
            <==> is_ascii_letter_or_digit(s[i]))
}

/// An answer for the first character of `s` that agrees with std on ASCII
/// characters: an ASCII character is alphabetic exactly when it is a letter.
pub open spec fn start_fits(s: Seq<char>, starts_alphabetic: bool) -> bool {
    s.len() > 0 && is_ascii_char(s[0]) ==> (starts_alphabetic <==> is_ascii_letter(s[0]))
}

/// When no character of `s` is refused, each is allowed.
proof fn lemma_first_disallowed_given_none(s: Seq<char>, alphanumeric: Seq<bool>, allow_colon: bool)
    requires
        alphanumeric.len() == s.len(),
        first_disallowed_given(s, alphanumeric, allow_colon) is None,
    ensures
        forall|i: int|
            0 <= i < s.len() ==> allowed_given(#[trigger] s[i], alphanumeric[i], allow_colon),
    decreases s.len(),
{
    if s.len() > 0 {
        lemma_first_disallowed_given_none(s.drop_first(), alphanumeric.drop_first(), allow_colon);
        assert forall|i: int| 0 <= i < s.len() implies allowed_given(#[trigger] s[i], alphanumeric[i], allow_colon) by {
            if i > 0 {
                assert(s[i] == s.drop_first()[i - 1]);
                assert(alphanumeric[i] == alphanumeric.drop_first()[i - 1]);
            }
        }
    }
}

/// With answers that agree with std on ASCII characters, characters that pass
/// hold no `,`, and no `:` unless colons are allowed.
proof fn lemma_passing_characters(s: Seq<char>, alphanumeric: Seq<bool>, allow_colon: bool)
    requires
        answers_fit(s, alphanumeric),
        first_disallowed_given(s, alphanumeric, allow_colon) is None,
    ensures
        !s.contains(','),
        !allow_colon ==> !s.contains(':'),
{
    lemma_first_disallowed_given_none(s, alphanumeric, allow_colon);
    assert(is_ascii_char(','));
    assert(is_ascii_char(':'));
    if s.contains(',') {
        let i = choose|i: int| 0 <= i < s.len() && s[i] == ',';
        assert(allowed_given(s[i], alphanumeric[i], allow_colon));
    }
    if !allow_colon && s.contains(':') {
        let i = choose|i: int| 0 <= i < s.len() && s[i] == ':';
        assert(allowed_given(s[i], alphanumeric[i], allow_colon));
    }
}

/// With the answers of `char::is_alphanumeric`, the check on given answers
/// finds what the check over the characters finds.
proof fn lemma_first_disallowed_given(s: Seq<char>, allow_colon: bool)
    ensures
        first_disallowed_given(s, alphanumeric_answers(s), allow_colon) == first_disallowed(s, allow_colon),
    decreases s.len(),
{
    if s.len() > 0 {
        assert(alphanumeric_answers(s).drop_first() =~= alphanumeric_answers(s.drop_first()));
        lemma_first_disallowed_given(s.drop_first(), allow_colon);
    }
}

/// With std's answers, the checks on given answers are the checks over the characters.
proof fn lemma_checks_given(key: Seq<char>, value: Seq<char>)
    ensures
        key_value_check_given(
            key,
            value,
            starts_alphabetic(key),
            alphanumeric_answers(key),
            alphanumeric_answers(value),
        ) == key_value_check(key, value),
        bare_check_given(value, starts_alphabetic(value), alphanumeric_answers(value)) == bare_check(value),
{
    lemma_first_disallowed_given(key, false);
    lemma_first_disallowed_given(value, true);
}

/// The segments of `s` between commas, read from the start: the segments
/// already closed by a comma, and the segment still open.
pub open spec fn split_commas_from(s: Seq<char>) -> (Seq<Seq<char>>, Seq<char>)
    decreases s.len(),
{
    if s.len() == 0 {
        (Seq::empty(), Seq::empty())
    } else {
        let before = split_commas_from(s.drop_last());
        if s.last() == ',' {
            (before.0.push(before.1), Seq::empty())
        } else {
            (before.0, before.1.push(s.last()))
        }
    }
}

/// The comma-separated segments of `s`; none for the empty text.
pub open spec fn split_commas(s: Seq<char>) -> Seq<Seq<char>> {
    if s.len() == 0 {
        Seq::empty()
    } else {
        split_commas_from(s).0.push(split_commas_from(s).1)
    }
}

/// Text without a comma extends the open segment.
proof fn lemma_split_append_plain(p: Seq<char>, t: Seq<char>)
    requires
        !t.contains(','),
    ensures
        split_commas_from(p + t) == (split_commas_from(p).0, split_commas_from(p).1 + t),
    decreases t.len(),
{
    if t.len() == 0 {
        assert(p + t =~= p);
        assert(split_commas_from(p).1 + t =~= split_commas_from(p).1);
    } else {
        let u = t.drop_last();
        assert(!u.contains(',')) by {
            if u.contains(',') {
                let i = choose|i: int| 0 <= i < u.len() && u[i] == ',';
                assert(t[i] == ',');
            }
        }
        lemma_split_append_plain(p, u);
        assert((p + t).drop_last() =~= p + u);
        assert((p + t).last() == t.last());
        assert(t.last() != ',') by {
            assert(t[t.len() - 1] == t.last());
        }
        assert((split_commas_from(p).1 + u).push(t.last()) =~= split_commas_from(p).1 + t);
    }
}

/// Splitting the joined tags gives the tags back, when each tag is nonempty
/// and holds no comma.
proof fn lemma_split_join(tags: Seq<Seq<char>>)
    requires
        forall|i: int| 0 <= i < tags.len() ==> valid_tag(#[trigger] tags[i]),
    ensures
        split_commas(join_tags(tags)) == tags,
    decreases tags.len(),
{
    if tags.len() == 1 {
        assert(valid_tag(tags[0]));
        lemma_split_append_plain(Seq::empty(), tags[0]);
        assert(Seq::<char>::empty() + tags[0] =~= tags[0]);
        assert(split_commas(join_tags(tags)) =~= tags);
    } else if tags.len() > 1 {
        let rest = tags.drop_last();
        let last = tags.last();
        assert(valid_tag(tags[tags.len() - 1]));
        assert forall|i: int| 0 <= i < rest.len() implies valid_tag(#[trigger] rest[i]) by {
            assert(rest[i] == tags[i]);
        }
        lemma_split_join(rest);
        lemma_join_push(rest.drop_last(), rest.last());
        let j = join_tags(rest);
        assert(j.len() > 0) by {
            lemma_join_push(rest, last);
            assert(rest.len() > 0);
        }
        let p = j.push(',');
        lemma_split_append_plain(p, last);
        assert(j + seq![','] + last =~= p + last);
        assert(p.drop_last() =~= j);
        assert(split_commas(join_tags(tags)) =~= tags);
    }
}

/// The text of a tag list splits at its commas into valid tags, which joined
/// by commas give the text back.
pub proof fn lemma_tag_list_splits(text: Seq<char>)
    requires
        is_tag_list(text),
    ensures
        join_tags(split_commas(text)) == text,
        forall|i: int| 0 <= i < split_commas(text).len() ==> valid_tag(#[trigger] split_commas(text)[i]),
{
    let tags = choose|tags: Seq<Seq<char>>|
        #![trigger join_tags(tags)]
        join_tags(tags) == text && forall|i: int| 0 <= i < tags.len() ==> valid_tag(#[trigger] tags[i]);
    lemma_split_join(tags);
}

/// `first_disallowed` finds nothing exactly when every character is allowed.
pub proof fn lemma_first_disallowed(s: Seq<char>, allow_colon: bool)
    ensures
        first_disallowed(s, allow_colon) is None <==> forall|i: int|
            0 <= i < s.len() ==> allowed_char(#[trigger] s[i], allow_colon),
        first_disallowed(s, allow_colon) matches Some(c) ==> !allowed_char(c, allow_colon)
            && s.contains(c),
    decreases s.len(),
{
    if s.len() > 0 {
        lemma_first_disallowed(s.drop_first(), allow_colon);
        if first_disallowed(s, allow_colon) is None {
            assert forall|i: int| 0 <= i < s.len() implies allowed_char(#[trigger] s[i], allow_colon) by {
                if i > 0 {
                    assert(s[i] == s.drop_first()[i - 1]);
                }
            }
        }
        if let Some(c) = first_disallowed(s.drop_first(), allow_colon) {
            if allowed_char(s[0], allow_colon) {
                let k = choose|k: int| 0 <= k < s.drop_first().len() && s.drop_first()[k] == c;
                assert(s[k + 1] == c);
            }
        }
    }
}

/// When every character of `s` is allowed, none is refused.
proof fn lemma_first_disallowed_given_all(s: Seq<char>, alphanumeric: Seq<bool>, allow_colon: bool)
    requires
        alphanumeric.len() == s.len(),
        forall|i: int|
            0 <= i < s.len() ==> allowed_given(#[trigger] s[i], alphanumeric[i], allow_colon),
    ensures
        first_disallowed_given(s, alphanumeric, allow_colon) is None,
    decreases s.len(),
{
    if s.len() > 0 {
        assert(allowed_given(s[0], alphanumeric[0], allow_colon));
        assert forall|i: int| 0 <= i < s.len() - 1 implies allowed_given(
            #[trigger] s.drop_first()[i],
            alphanumeric.drop_first()[i],
            allow_colon,
        ) by {
            assert(s.drop_first()[i] == s[i + 1]);
            assert(allowed_given(s[i + 1], alphanumeric[i + 1], allow_colon));
        }
        lemma_first_disallowed_given_all(s.drop_first(), alphanumeric.drop_first(), allow_colon);
    }
}

/// With answers that agree with std on ASCII characters, and the same
/// answers for the same characters of key, value and joined text: a
/// `key:value` tag passes the checks exactly when its key holds no `:` and
/// the joined text `key:value` passes the checks of a tag without a value.
pub proof fn lemma_key_value_tag_is_bare_tag_given(
    key: Seq<char>,
    value: Seq<char>,
    key_starts_alphabetic: bool,
    key_alphanumeric: Seq<bool>,
    value_alphanumeric: Seq<bool>,
    tag_starts_alphabetic: bool,
    tag_alphanumeric: Seq<bool>,
)
    requires
        key.len() + value.len() + 1 <= usize::MAX,
        answers_fit(key, key_alphanumeric),
        answers_fit(value, value_alphanumeric),
        answers_fit(key_value_tag(key, value), tag_alphanumeric),
        start_fits(key, key_starts_alphabetic),
        start_fits(key_value_tag(key, value), tag_starts_alphabetic),
        forall|i: int| 0 <= i < key.len() ==> tag_alphanumeric[i] == #[trigger] key_alphanumeric[i],
        forall|j: int|
            0 <= j < value.len() ==> tag_alphanumeric[key.len() + 1 + j] == #[trigger] value_alphanumeric[j],
        key.len() > 0 ==> tag_starts_alphabetic == key_starts_alphabetic,
    ensures
        key_value_check_given(key, value, key_starts_alphabetic, key_alphanumeric, value_alphanumeric)
            is Ok <==> (!key.contains(':') && bare_check_given(
            key_value_tag(key, value),
            tag_starts_alphabetic,
            tag_alphanumeric,
        ) is Ok),
{
    let t = key_value_tag(key, value);
    assert(t.len() == key.len() + 1 + value.len());
    assert(t[key.len() as int] == ':');
    assert(is_ascii_char(':'));
    if key_value_check_given(key, value, key_starts_alphabetic, key_alphanumeric, value_alphanumeric)
        is Ok {
        lemma_first_disallowed_given_none(key, key_alphanumeric, false);
        lemma_first_disallowed_given_none(value, value_alphanumeric, true);
        lemma_passing_characters(key, key_alphanumeric, false);
        assert forall|i: int| 0 <= i < t.len() implies allowed_given(
            #[trigger] t[i],
            tag_alphanumeric[i],
            true,
        ) by {
            if i < key.len() {
                assert(t[i] == key[i]);
                assert(allowed_given(key[i], key_alphanumeric[i], false));
            } else if i > key.len() {
                let j = i - key.len() - 1;
                assert(t[i] == value[j]);
                assert(allowed_given(value[j], value_alphanumeric[j], true));
            }
        }
        lemma_first_disallowed_given_all(t, tag_alphanumeric, true);
        assert(t[0] == key[0]);
    }
    if !key.contains(':') && bare_check_given(t, tag_starts_alphabetic, tag_alphanumeric) is Ok {
        if key.len() == 0 {
            assert(t[0] == ':');
            assert(!is_ascii_letter(':'));
        }
        lemma_first_disallowed_given_none(t, tag_alphanumeric, true);
        assert forall|i: int| 0 <= i < key.len() implies allowed_given(
            #[trigger] key[i],
            key_alphanumeric[i],
            false,
        ) by {
            assert(t[i] == key[i]);
            assert(allowed_given(t[i], tag_alphanumeric[i], true));
            assert(key[i] != ':');
        }
        assert forall|j: int| 0 <= j < value.len() implies allowed_given(
            #[trigger] value[j],
            value_alphanumeric[j],
            true,
        ) by {
            assert(t[key.len() + 1 + j] == value[j]);
            assert(allowed_given(t[key.len() + 1 + j], tag_alphanumeric[key.len() + 1 + j], true));
        }
        lemma_first_disallowed_given_all(key, key_alphanumeric, false);
        lemma_first_disallowed_given_all(value, value_alphanumeric, true);
    }
}

/// A `key:value` tag that passes the checks is, as text, a tag without a
/// value that passes the checks; and a nonempty key without `:` whose joined
/// text passes the checks of a tag without a value passes the `key:value`
/// checks.
pub proof fn lemma_key_value_tag_is_bare_tag(key: Seq<char>, value: Seq<char>)
    requires
        key.len() + value.len() + 1 <= usize::MAX,
    ensures
        key_value_check(key, value) is Ok ==> bare_check(key_value_tag(key, value)) is Ok,
        key.len() > 0 && !key.contains(':') && bare_check(key_value_tag(key, value)) is Ok
            ==> key_value_check(key, value) is Ok,
{
    let t = key_value_tag(key, value);
    lemma_first_disallowed(key, false);
    lemma_first_disallowed(value, true);
    lemma_first_disallowed(t, true);
    if key_value_check(key, value) is Ok {
        lemma_checked_tag_is_valid(key, value);
    }
    if key.len() > 0 && !key.contains(':') && bare_check(t) is Ok {
        assert(t[0] == key[0]);
        assert forall|i: int| 0 <= i < key.len() implies allowed_char(#[trigger] key[i], false) by {
            assert(t[i] == key[i]);
            assert(allowed_char(t[i], true));
            assert(key[i] != ':');
        }
        assert forall|i: int| 0 <= i < value.len() implies allowed_char(#[trigger] value[i], true) by {
            assert(t[key.len() + 1 + i] == value[i]);
            assert(allowed_char(t[key.len() + 1 + i], true));
        }
    }
}

/// A `key:value` tag that passes the checks has the shape that the tag list keeps.
proof fn lemma_checked_tag_is_valid(key: Seq<char>, value: Seq<char>)
    requires
        key.len() + value.len() + 1 <= usize::MAX,
        key_value_check(key, value) is Ok,
    ensures
        tag_shape(key_value_tag(key, value)),
        !key.contains(',') && !value.contains(',') ==> !key_value_tag(key, value).contains(','),
{
    lemma_first_disallowed(key, false);
    lemma_first_disallowed(value, true);
    let t = key_value_tag(key, value);
    assert forall|i: int| 0 <= i < t.len() implies allowed_char(#[trigger] t[i], true) by {
        if i < key.len() {
            assert(t[i] == key[i]);
            assert(allowed_char(key[i], false));
        } else if i > key.len() {
            assert(t[i] == value[i - key.len() - 1]);
        }
    }
    assert(t[0] == key[0]);
    if !key.contains(',') && !value.contains(',') && t.contains(',') {
        let i = choose|i: int| 0 <= i < t.len() && t[i] == ',';
        if i < key.len() {
            assert(t[i] == key[i]);
        } else if i > key.len() {
            assert(t[i] == value[i - key.len() - 1]);
        }
    }
}

/// A tag without a value that passes the checks has the shape that the tag list keeps.
proof fn lemma_checked_bare_tag_is_valid(tag: Seq<char>)
    requires
        tag.len() <= usize::MAX,
        bare_check(tag) is Ok,
    ensures
        tag_shape(tag),
{
    lemma_first_disallowed(tag, true);
}

/// Appending a nonempty tag to the joined text joins one tag more.
proof fn lemma_join_push(tags: Seq<Seq<char>>, tag: Seq<char>)
    requires
        forall|i: int| 0 <= i < tags.len() ==> valid_tag(#[trigger] tags[i]),
    ensures
        join_tags(tags.push(tag)) == append_tag(join_tags(tags), tag),
        join_tags(tags).len() == 0 <==> tags.len() == 0,
    decreases tags.len(),
{
    assert(tags.push(tag).drop_last() =~= tags);
    if tags.len() > 1 {
        lemma_join_push(tags.drop_last(), tags.last());
        assert(tags.drop_last().push(tags.last()) =~= tags);
    } else if tags.len() == 1 {
        assert(valid_tag(tags[0]));
    }
}

/// The empty text is the empty tag list.
proof fn lemma_empty_is_tag_list()
    ensures
        is_tag_list(Seq::empty()),
{
    let tags = Seq::<Seq<char>>::empty();
    assert(join_tags(tags) =~= Seq::<char>::empty());
}

/// Appending a valid tag to a tag list gives a tag list.
proof fn lemma_append_keeps_tag_list(text: Seq<char>, tag: Seq<char>)
    requires
        is_tag_list(text),
        valid_tag(tag),
    ensures
        is_tag_list(append_tag(text, tag)),
{
    let tags = choose|tags: Seq<Seq<char>>|
        #![trigger join_tags(tags)]
        join_tags(tags) == text && forall|i: int| 0 <= i < tags.len() ==> valid_tag(#[trigger] tags[i]);
    lemma_join_push(tags, tag);
    let more = tags.push(tag);
    assert forall|i: int| 0 <= i < more.len() implies valid_tag(#[trigger] more[i]) by {
        if i < tags.len() {
            assert(more[i] == tags[i]);
        }
    }
    assert(join_tags(more) == append_tag(text, tag));
}

/// The first character of `s` that may not stand in it is the first one
/// that is refused.
proof fn lemma_first_disallowed_at(s: Seq<char>, allow_colon: bool, i: int)
    requires
        0 <= i < s.len(),
        !allowed_char(s[i], allow_colon),
        forall|j: int| 0 <= j < i ==> allowed_char(#[trigger] s[j], allow_colon),
    ensures
        first_disallowed(s, allow_colon) == Some(s[i]),
    decreases i,
{
    if i > 0 {
        assert(allowed_char(s[0], allow_colon));
        assert forall|j: int| 0 <= j < i - 1 implies allowed_char(#[trigger] s.drop_first()[j], allow_colon) by {
            assert(s.drop_first()[j] == s[j + 1]);
            assert(allowed_char(s[j + 1], allow_colon));
        }
        lemma_first_disallowed_at(s.drop_first(), allow_colon, i - 1);
    }
}

/// The first character of `s` that may not stand in it, on given answers, is
/// the first one that is refused.
proof fn lemma_first_disallowed_given_at(s: Seq<char>, alphanumeric: Seq<bool>, allow_colon: bool, i: int)
    requires
        alphanumeric.len() == s.len(),
        0 <= i < s.len(),
        !allowed_given(s[i], alphanumeric[i], allow_colon),
        forall|j: int| 0 <= j < i ==> allowed_given(#[trigger] s[j], alphanumeric[j], allow_colon),
    ensures
        first_disallowed_given(s, alphanumeric, allow_colon) == Some(s[i]),
    decreases i,
{
    if i > 0 {
        assert(allowed_given(s[0], alphanumeric[0], allow_colon));
        assert forall|j: int| 0 <= j < i - 1 implies allowed_given(
            #[trigger] s.drop_first()[j],
            alphanumeric.drop_first()[j],
            allow_colon,
        ) by {
            assert(s.drop_first()[j] == s[j + 1]);
            assert(allowed_given(s[j + 1], alphanumeric[j + 1], allow_colon));
        }
        lemma_first_disallowed_given_at(s.drop_first(), alphanumeric.drop_first(), allow_colon, i - 1);
    }
}

/// What the `key:value` checks answer, over std's answers for the
/// characters: the tag is accepted exactly when the key is nonempty, its
/// first character is alphabetic, every key character is alphanumeric or one
/// of `_ - . / @`, every value character is alphanumeric or one of
/// `_ - . / @ :`, and `key:value` has at most 200 characters. Otherwise the
/// error names the first rule broken, and the first offending character.
pub proof fn lemma_key_value_check_answers(key: Seq<char>, value: Seq<char>)
    requires
        key.len() + value.len() + 1 <= usize::MAX,
    ensures
        key_value_check(key, value) is Ok <==> (key.len() > 0 && is_alphabetic(key[0])
            && (forall|i: int| 0 <= i < key.len() ==> (is_alphanumeric(key[i]) || key[i] == '_' || key[i] == '-' || key[i] == '.' || key[i] == '/' || key[i] == '@'))
            && (forall|i: int| 0 <= i < value.len() ==> (is_alphanumeric(value[i]) || value[i] == '_' || value[i] == '-' || value[i] == '.' || value[i] == '/' || value[i] == '@' || value[i] == ':'))
            && key.len() + 1 + value.len() <= 200),
        key.len() == 0 ==> key_value_check(key, value) == Err::<(), TagError>(TagError::Empty),
        key.len() > 0 && !is_alphabetic(key[0]) ==> key_value_check(key, value) == Err::<(), TagError>(
            TagError::MustStartWithLetter,
        ),
        forall|i: int|
            #![trigger key[i]]
            key.len() > 0 && is_alphabetic(key[0]) && 0 <= i < key.len() && !(is_alphanumeric(key[i]) || key[i] == '_' || key[i] == '-' || key[i] == '.' || key[i] == '/' || key[i] == '@') && (forall|j: int|
                0 <= j < i ==> (is_alphanumeric(key[j]) || key[j] == '_' || key[j] == '-' || key[j] == '.' || key[j] == '/' || key[j] == '@')) ==> key_value_check(key, value) == Err::<(), TagError>(
                TagError::InvalidCharacter { part: "key", character: key[i] },
            ),
        forall|i: int|
            #![trigger value[i]]
            key.len() > 0 && is_alphabetic(key[0]) && (forall|j: int| 0 <= j < key.len() ==> (is_alphanumeric(key[j]) || key[j] == '_' || key[j] == '-' || key[j] == '.' || key[j] == '/' || key[j] == '@'))
                && 0 <= i < value.len() && !(is_alphanumeric(value[i]) || value[i] == '_' || value[i] == '-' || value[i] == '.' || value[i] == '/' || value[i] == '@' || value[i] == ':') && (forall|j: int|
                0 <= j < i ==> (is_alphanumeric(value[j]) || value[j] == '_' || value[j] == '-' || value[j] == '.' || value[j] == '/' || value[j] == '@' || value[j] == ':')) ==> key_value_check(key, value) == Err::<(), TagError>(
                TagError::InvalidCharacter { part: "value", character: value[i] },
            ),
        key.len() > 0 && is_alphabetic(key[0]) && (forall|j: int| 0 <= j < key.len() ==> (is_alphanumeric(key[j]) || key[j] == '_' || key[j] == '-' || key[j] == '.' || key[j] == '/' || key[j] == '@'))
            && (forall|j: int| 0 <= j < value.len() ==> (is_alphanumeric(value[j]) || value[j] == '_' || value[j] == '-' || value[j] == '.' || value[j] == '/' || value[j] == '@' || value[j] == ':')) && key.len() + 1
            + value.len() > 200 ==> key_value_check(key, value) == Err::<(), TagError>(
            TagError::TooLong { characters: (key.len() + 1 + value.len()) as usize },
        ),
{
    lemma_first_disallowed(key, false);
    lemma_first_disallowed(value, true);
    assert forall|i: int|
        #![trigger key[i]]
        key.len() > 0 && is_alphabetic(key[0]) && 0 <= i < key.len() && !allowed_char(key[i], false) && (forall|j: int|
            0 <= j < i ==> allowed_char(key[j], false)) implies key_value_check(key, value) == Err::<(), TagError>(
        TagError::InvalidCharacter { part: "key", character: key[i] },
    ) by {
        assert forall|j: int| 0 <= j < i implies allowed_char(#[trigger] key[j], false) by {}
        lemma_first_disallowed_at(key, false, i);
    }
    assert forall|i: int|
        #![trigger value[i]]
        key.len() > 0 && is_alphabetic(key[0]) && (forall|j: int| 0 <= j < key.len() ==> allowed_char(key[j], false))
            && 0 <= i < value.len() && !allowed_char(value[i], true) && (forall|j: int|
            0 <= j < i ==> allowed_char(value[j], true)) implies key_value_check(key, value) == Err::<(), TagError>(
        TagError::InvalidCharacter { part: "value", character: value[i] },
    ) by {
        assert forall|j: int| 0 <= j < i implies allowed_char(#[trigger] value[j], true) by {}
        lemma_first_disallowed_at(value, true, i);
    }
}

/// The same answers, for given answers about the characters.
pub proof fn lemma_key_value_check_given_answers(
    key: Seq<char>,
    value: Seq<char>,
    key_starts_alphabetic: bool,
    key_alphanumeric: Seq<bool>,
    value_alphanumeric: Seq<bool>,
)
    requires
        key.len() + value.len() + 1 <= usize::MAX,
        key_alphanumeric.len() == key.len(),
        value_alphanumeric.len() == value.len(),
    ensures
        key_value_check_given(key, value, key_starts_alphabetic, key_alphanumeric, value_alphanumeric) is Ok <==> (key.len() > 0 && key_starts_alphabetic
            && (forall|i: int| 0 <= i < key.len() ==> (key_alphanumeric[i] || key[i] == '_' || key[i] == '-' || key[i] == '.' || key[i] == '/' || key[i] == '@'))
            && (forall|i: int| 0 <= i < value.len() ==> (value_alphanumeric[i] || value[i] == '_' || value[i] == '-' || value[i] == '.' || value[i] == '/' || value[i] == '@' || value[i] == ':'))
            && key.len() + 1 + value.len() <= 200),
        key.len() == 0 ==> key_value_check_given(key, value, key_starts_alphabetic, key_alphanumeric, value_alphanumeric) == Err::<(), TagError>(TagError::Empty),
        key.len() > 0 && !key_starts_alphabetic ==> key_value_check_given(key, value, key_starts_alphabetic, key_alphanumeric, value_alphanumeric) == Err::<(), TagError>(
            TagError::MustStartWithLetter,
        ),
        forall|i: int|
            #![trigger key[i]]
            key.len() > 0 && key_starts_alphabetic && 0 <= i < key.len() && !(key_alphanumeric[i] || key[i] == '_' || key[i] == '-' || key[i] == '.' || key[i] == '/' || key[i] == '@') && (forall|j: int|
                0 <= j < i ==> (key_alphanumeric[j] || key[j] == '_' || key[j] == '-' || key[j] == '.' || key[j] == '/' || key[j] == '@')) ==> key_value_check_given(key, value, key_starts_alphabetic, key_alphanumeric, value_alphanumeric) == Err::<(), TagError>(
                TagError::InvalidCharacter { part: "key", character: key[i] },
            ),
        forall|i: int|
            #![trigger value[i]]
            key.len() > 0 && key_starts_alphabetic && (forall|j: int| 0 <= j < key.len() ==> (key_alphanumeric[j] || key[j] == '_' || key[j] == '-' || key[j] == '.' || key[j] == '/' || key[j] == '@'))
                && 0 <= i < value.len() && !(value_alphanumeric[i] || value[i] == '_' || value[i] == '-' || value[i] == '.' || value[i] == '/' || value[i] == '@' || value[i] == ':') && (forall|j: int|
                0 <= j < i ==> (value_alphanumeric[j] || value[j] == '_' || value[j] == '-' || value[j] == '.' || value[j] == '/' || value[j] == '@' || value[j] == ':')) ==> key_value_check_given(key, value, key_starts_alphabetic, key_alphanumeric, value_alphanumeric) == Err::<(), TagError>(
                TagError::InvalidCharacter { part: "value", character: value[i] },
            ),
        key.len() > 0 && key_starts_alphabetic && (forall|j: int| 0 <= j < key.len() ==> (key_alphanumeric[j] || key[j] == '_' || key[j] == '-' || key[j] == '.' || key[j] == '/' || key[j] == '@'))
            && (forall|j: int| 0 <= j < value.len() ==> (value_alphanumeric[j] || value[j] == '_' || value[j] == '-' || value[j] == '.' || value[j] == '/' || value[j] == '@' || value[j] == ':')) && key.len() + 1
            + value.len() > 200 ==> key_value_check_given(key, value, key_starts_alphabetic, key_alphanumeric, value_alphanumeric) == Err::<(), TagError>(
            TagError::TooLong { characters: (key.len() + 1 + value.len()) as usize },
        ),
{
    if first_disallowed_given(key, key_alphanumeric, false) is None {
        lemma_first_disallowed_given_none(key, key_alphanumeric, false);
    }
    if first_disallowed_given(value, value_alphanumeric, true) is None {
        lemma_first_disallowed_given_none(value, value_alphanumeric, true);
    }
    if forall|i: int| 0 <= i < key.len() ==> allowed_given(#[trigger] key[i], key_alphanumeric[i], false) {
        lemma_first_disallowed_given_all(key, key_alphanumeric, false);
    }
    if forall|i: int| 0 <= i < value.len() ==> allowed_given(#[trigger] value[i], value_alphanumeric[i], true) {
        lemma_first_disallowed_given_all(value, value_alphanumeric, true);
    }
    assert forall|i: int|
        #![trigger key[i]]
        key.len() > 0 && key_starts_alphabetic && 0 <= i < key.len() && !allowed_given(key[i], key_alphanumeric[i], false)
            && (forall|j: int| 0 <= j < i ==> allowed_given(key[j], key_alphanumeric[j], false))
        implies key_value_check_given(key, value, key_starts_alphabetic, key_alphanumeric, value_alphanumeric)
        == Err::<(), TagError>(TagError::InvalidCharacter { part: "key", character: key[i] }) by {
        assert forall|j: int| 0 <= j < i implies allowed_given(#[trigger] key[j], key_alphanumeric[j], false) by {}
        lemma_first_disallowed_given_at(key, key_alphanumeric, false, i);
    }
    assert forall|i: int|
        #![trigger value[i]]
        key.len() > 0 && key_starts_alphabetic && (forall|j: int| 0 <= j < key.len() ==> allowed_given(key[j], key_alphanumeric[j], false))
            && 0 <= i < value.len() && !allowed_given(value[i], value_alphanumeric[i], true)
            && (forall|j: int| 0 <= j < i ==> allowed_given(value[j], value_alphanumeric[j], true))
        implies key_value_check_given(key, value, key_starts_alphabetic, key_alphanumeric, value_alphanumeric)
        == Err::<(), TagError>(TagError::InvalidCharacter { part: "value", character: value[i] }) by {
        assert forall|j: int| 0 <= j < i implies allowed_given(#[trigger] value[j], value_alphanumeric[j], true) by {}
        lemma_first_disallowed_given_at(value, value_alphanumeric, true, i);
    }
}

/// What the checks of a tag without a value answer, over std's answers for
/// the characters: the tag is accepted exactly when it is nonempty, its first
/// character is alphabetic, every character is alphanumeric or one of
/// `_ - . / @ :`, and it has at most 200 characters. Otherwise the error
/// names the first rule broken, and the first offending character.
pub proof fn lemma_bare_check_answers(tag: Seq<char>)
    requires
        tag.len() <= usize::MAX,
    ensures
        bare_check(tag) is Ok <==> (tag.len() > 0 && is_alphabetic(tag[0])
            && (forall|i: int| 0 <= i < tag.len() ==> (is_alphanumeric(tag[i]) || tag[i] == '_' || tag[i] == '-' || tag[i] == '.' || tag[i] == '/' || tag[i] == '@' || tag[i] == ':'))
            && tag.len() <= 200),
        tag.len() == 0 ==> bare_check(tag) == Err::<(), TagError>(TagError::Empty),
        tag.len() > 0 && !is_alphabetic(tag[0]) ==> bare_check(tag) == Err::<(), TagError>(
            TagError::MustStartWithLetter,
        ),
        forall|i: int|
            #![trigger tag[i]]
            tag.len() > 0 && is_alphabetic(tag[0]) && 0 <= i < tag.len() && !(is_alphanumeric(tag[i]) || tag[i] == '_' || tag[i] == '-' || tag[i] == '.' || tag[i] == '/' || tag[i] == '@' || tag[i] == ':') && (forall|j: int|
                0 <= j < i ==> (is_alphanumeric(tag[j]) || tag[j] == '_' || tag[j] == '-' || tag[j] == '.' || tag[j] == '/' || tag[j] == '@' || tag[j] == ':')) ==> bare_check(tag) == Err::<(), TagError>(
                TagError::InvalidCharacter { part: "value", character: tag[i] },
            ),
        tag.len() > 0 && is_alphabetic(tag[0]) && (forall|j: int| 0 <= j < tag.len() ==> (is_alphanumeric(tag[j]) || tag[j] == '_' || tag[j] == '-' || tag[j] == '.' || tag[j] == '/' || tag[j] == '@' || tag[j] == ':'))
            && tag.len() > 200 ==> bare_check(tag) == Err::<(), TagError>(
            TagError::TooLong { characters: tag.len() as usize },
        ),
{
    lemma_first_disallowed(tag, true);
    assert forall|i: int|
        #![trigger tag[i]]
        tag.len() > 0 && is_alphabetic(tag[0]) && 0 <= i < tag.len() && !allowed_char(tag[i], true) && (forall|j: int|
            0 <= j < i ==> allowed_char(tag[j], true)) implies bare_check(tag) == Err::<(), TagError>(
        TagError::InvalidCharacter { part: "value", character: tag[i] },
    ) by {
        assert forall|j: int| 0 <= j < i implies allowed_char(#[trigger] tag[j], true) by {}
        lemma_first_disallowed_at(tag, true, i);
    }
}

/// The same answers, for given answers about the characters.
pub proof fn lemma_bare_check_given_answers(tag: Seq<char>, starts_alphabetic: bool, alphanumeric: Seq<bool>)
    requires
        tag.len() <= usize::MAX,
        alphanumeric.len() == tag.len(),
    ensures
        bare_check_given(tag, starts_alphabetic, alphanumeric) is Ok <==> (tag.len() > 0 && starts_alphabetic
            && (forall|i: int| 0 <= i < tag.len() ==> (alphanumeric[i] || tag[i] == '_' || tag[i] == '-' || tag[i] == '.' || tag[i] == '/' || tag[i] == '@' || tag[i] == ':'))
            && tag.len() <= 200),
        tag.len() == 0 ==> bare_check_given(tag, starts_alphabetic, alphanumeric) == Err::<(), TagError>(TagError::Empty),
        tag.len() > 0 && !starts_alphabetic ==> bare_check_given(tag, starts_alphabetic, alphanumeric) == Err::<(), TagError>(
            TagError::MustStartWithLetter,
        ),
        forall|i: int|
            #![trigger tag[i]]
            tag.len() > 0 && starts_alphabetic && 0 <= i < tag.len() && !(alphanumeric[i] || tag[i] == '_' || tag[i] == '-' || tag[i] == '.' || tag[i] == '/' || tag[i] == '@' || tag[i] == ':') && (forall|j: int|
                0 <= j < i ==> (alphanumeric[j] || tag[j] == '_' || tag[j] == '-' || tag[j] == '.' || tag[j] == '/' || tag[j] == '@' || tag[j] == ':')) ==> bare_check_given(tag, starts_alphabetic, alphanumeric) == Err::<(), TagError>(
                TagError::InvalidCharacter { part: "value", character: tag[i] },
            ),
        tag.len() > 0 && starts_alphabetic && (forall|j: int| 0 <= j < tag.len() ==> (alphanumeric[j] || tag[j] == '_' || tag[j] == '-' || tag[j] == '.' || tag[j] == '/' || tag[j] == '@' || tag[j] == ':'))
            && tag.len() > 200 ==> bare_check_given(tag, starts_alphabetic, alphanumeric) == Err::<(), TagError>(
            TagError::TooLong { characters: tag.len() as usize },
        ),
{
    if first_disallowed_given(tag, alphanumeric, true) is None {
        lemma_first_disallowed_given_none(tag, alphanumeric, true);
    }
    if forall|i: int| 0 <= i < tag.len() ==> allowed_given(#[trigger] tag[i], alphanumeric[i], true) {
        lemma_first_disallowed_given_all(tag, alphanumeric, true);
    }
    assert forall|i: int|
        #![trigger tag[i]]
        tag.len() > 0 && starts_alphabetic && 0 <= i < tag.len() && !allowed_given(tag[i], alphanumeric[i], true)
            && (forall|j: int| 0 <= j < i ==> allowed_given(tag[j], alphanumeric[j], true))
        implies bare_check_given(tag, starts_alphabetic, alphanumeric)
        == Err::<(), TagError>(TagError::InvalidCharacter { part: "value", character: tag[i] }) by {
        assert forall|j: int| 0 <= j < i implies allowed_given(#[trigger] tag[j], alphanumeric[j], true) by {}
        lemma_first_disallowed_given_at(tag, alphanumeric, true, i);
    }
}

/// The text of a `key:value` tag: the key, a colon, then the value.
pub proof fn lemma_key_value_tag_text(key: Seq<char>, value: Seq<char>)
    ensures
        key_value_tag(key, value).len() == key.len() + 1 + value.len(),
        forall|i: int| 0 <= i < key.len() ==> #[trigger] key_value_tag(key, value)[i] == key[i],
        key_value_tag(key, value)[key.len() as int] == ':',
        forall|j: int| 0 <= j < value.len() ==> key_value_tag(key, value)[key.len() + 1 + j] == #[trigger] value[j],
{
}

/// Appending a tag: to an empty text it gives the tag; otherwise the text,
/// then a comma, then the tag.
pub proof fn lemma_append_tag_text(text: Seq<char>, tag: Seq<char>)
    ensures
        text.len() == 0 ==> append_tag(text, tag) == tag,
        text.len() > 0 ==> append_tag(text, tag).len() == text.len() + 1 + tag.len(),
        text.len() > 0 ==> forall|i: int| 0 <= i < text.len() ==> #[trigger] append_tag(text, tag)[i] == text[i],
        text.len() > 0 ==> append_tag(text, tag)[text.len() as int] == ',',
        text.len() > 0 ==> forall|j: int|
            0 <= j < tag.len() ==> append_tag(text, tag)[text.len() + 1 + j] == #[trigger] tag[j],
{
}

/// A comma-separated collection of Datadog tags.
///
/// Datadog recommends `key:value` tags. Values are kept verbatim after their
/// syntax and length have been validated.
#[derive(Debug, PartialEq, Eq)]
pub struct Tags(String);

impl View for Tags {
    type V = Seq<char>;

    /// The encoded, comma-separated text.
    closed spec fn view(&self) -> Seq<char> {
        self.0@
    }
}

impl Tags {
    /// Every value of the type holds a comma-separated list of valid tags.
    #[verifier::type_invariant]
    closed spec fn holds_tag_list(self) -> bool {
        is_tag_list(self.0@)
    }

    /// An empty collection.
    pub fn new() -> (tags: Self)
        ensures
            tags@ == Seq::<char>::empty(),
    {
        proof {
            lemma_empty_is_tag_list();
        }
        Tags(String::new())
    }

    /// Replaces the text with `text`, which must already be a tag list.
    fn replace_text(&mut self, text: String)
        requires
            is_tag_list(text@),
        ensures
            final(self)@ == text@,
    {
        self.0 = text;
    }

    /// Takes the text out, leaving the empty collection.
    fn take_text(&mut self) -> (text: String)
        ensures
            text@ == old(self)@,
            is_tag_list(text@),
            final(self)@ == Seq::<char>::empty(),
    {
        proof {
            use_type_invariant(&*self);
            lemma_empty_is_tag_list();
        }
        let mut text = String::new();
        std::mem::swap(&mut text, &mut self.0);
        text
    }

    /// Appends a `key:value` tag.
    ///
    /// The key must start with a letter, key and value may hold only
    /// letters, digits, `_`, `-`, `.`, `/`, `@` (the value also `:`), and
    /// the tag may have at most 200 characters. A refused tag leaves the
    /// collection unchanged.
    pub fn push(&mut self, key: &str, value: &str) -> (r: Result<(), TagError>)
        requires
            key@.len() + value@.len() + 1 <= usize::MAX,
        ensures
            r == key_value_check(key@, value@),
            r is Ok ==> final(self)@ == append_tag(old(self)@, key_value_tag(key@, value@)),
            r is Err ==> final(self)@ == old(self)@,
            r is Ok ==> !key@.contains(':'),
    {
        validate_tag(key, value)?;
        proof {
            lemma_checked_tag_is_valid(key@, value@);
        }
        let mut text = self.take_text();
        push_separator(&mut text);
        text.append(key);
        text.append(":");
        text.append(value);
        proof {
            reveal_strlit(":");
            assert(text@ =~= append_tag(old(self)@, key_value_tag(key@, value@)));
            lemma_append_keeps_tag_list(old(self)@, key_value_tag(key@, value@));
        }
        self.replace_text(text);
        Ok(())
    }

    /// Appends a tag without a value.
    ///
    /// The tag must start with a letter, may hold only letters, digits,
    /// `_`, `-`, `.`, `/`, `@` and `:`, and may have at most 200 characters.
    /// A refused tag leaves the collection unchanged.
    pub fn push_bare(&mut self, tag: &str) -> (r: Result<(), TagError>)
        ensures
            r == bare_check(tag@),
            r is Ok ==> final(self)@ == append_tag(old(self)@, tag@),
            r is Err ==> final(self)@ == old(self)@,
    {
        validate_bare_tag(tag)?;
        proof {
            lemma_checked_bare_tag_is_valid(tag@);
        }
        let mut text = self.take_text();
        push_separator(&mut text);
        text.append(tag);
        proof {
            assert(text@ =~= append_tag(old(self)@, tag@));
            lemma_append_keeps_tag_list(old(self)@, tag@);
        }
        self.replace_text(text);
        Ok(())
    }

    /// The collection with a `key:value` tag appended, as by `push`.
    pub fn with(self, key: &str, value: &str) -> (r: Result<Self, TagError>)
        requires
            key@.len() + value@.len() + 1 <= usize::MAX,
        ensures
            key_value_check(key@, value@) is Ok ==> r is Ok,
            key_value_check(key@, value@) is Err ==> r == Err::<Self, TagError>(
                key_value_check(key@, value@)->Err_0,
            ),
            r matches Ok(tags) ==> key_value_check(key@, value@) is Ok && tags@ == append_tag(
                self@,
                key_value_tag(key@, value@),
            ),
    {
        let mut tags = self;
        tags.push(key, value)?;
        Ok(tags)
    }

    /// The collection with a tag without a value appended, as by `push_bare`.
    pub fn with_bare(self, tag: &str) -> (r: Result<Self, TagError>)
        ensures
            bare_check(tag@) is Ok ==> r is Ok,
            bare_check(tag@) is Err ==> r == Err::<Self, TagError>(bare_check(tag@)->Err_0),
            r matches Ok(tags) ==> bare_check(tag@) is Ok && tags@ == append_tag(self@, tag@),
    {
        let mut tags = self;
        tags.push_bare(tag)?;
        Ok(tags)
    }

    /// The encoded text: the tags joined by commas.
    pub fn as_str(&self) -> (s: &str)
        ensures
            s@ == self@,
            is_tag_list(s@),
            join_tags(split_commas(s@)) == s@,
            forall|i: int| 0 <= i < split_commas(s@).len() ==> valid_tag(#[trigger] split_commas(s@)[i]),
    {
        proof {
            use_type_invariant(self);
            lemma_tag_list_splits(self@);
        }
        self.0.as_str()
    }
}

impl Clone for Tags {
    /// A collection with the same text.
    fn clone(&self) -> (tags: Self)
        ensures
            tags@ == self@,
    {
        proof {
            use_type_invariant(self);
        }
        Tags(self.0.clone())
    }
}

impl Default for Tags {
    /// An empty collection.
    fn default() -> (tags: Self)
        ensures
            tags@ == Seq::<char>::empty(),
    {
        Tags::new()
    }
}

/// Appends a comma unless `text` is empty.
fn push_separator(text: &mut String)
    ensures
        final(text)@ == (if old(text)@.len() == 0 {
            Seq::<char>::empty()
        } else {
            old(text)@ + seq![',']
        }),
{
    if !text.as_str().is_empty() {
        text.append(",");
        proof {
            reveal_strlit(",");
        }
    }
}

/// Checks a `key:value` tag.
fn validate_tag(key: &str, value: &str) -> (r: Result<(), TagError>)
    requires
        key@.len() + value@.len() + 1 <= usize::MAX,
    ensures
        r == key_value_check(key@, value@),
        r is Ok ==> !key@.contains(',') && !key@.contains(':') && !value@.contains(','),
{
    let key_starts_alphabetic = starts_with_alphabetic(key);
    let key_alphanumeric = alphanumeric_flags(key);
    let value_alphanumeric = alphanumeric_flags(value);
    proof {
        lemma_checks_given(key@, value@);
    }
    let r = check_key_value_tag(
        key,
        value,
        key_starts_alphabetic,
        key_alphanumeric.as_slice(),
        value_alphanumeric.as_slice(),
    );
    proof {
        if r is Ok {
            lemma_passing_characters(key@, key_alphanumeric@, false);
            lemma_passing_characters(value@, value_alphanumeric@, true);
        }
    }
    r
}

/// Checks a tag without a value.
fn validate_bare_tag(tag: &str) -> (r: Result<(), TagError>)
    ensures
        r == bare_check(tag@),
        r is Ok ==> tag@.len() <= usize::MAX,
        r is Ok ==> !tag@.contains(','),
{
    let tag_starts_alphabetic = starts_with_alphabetic(tag);
    let alphanumeric = alphanumeric_flags(tag);
    proof {
        lemma_checks_given(tag@, tag@);
    }
    let r = check_bare_tag(tag, tag_starts_alphabetic, alphanumeric.as_slice());
    proof {
        if r is Ok {
            lemma_passing_characters(tag@, alphanumeric@, true);
        }
    }
    r
}

/// Whether `s` starts with an alphabetic character.
fn starts_with_alphabetic(s: &str) -> (r: bool)
    ensures
        r == starts_alphabetic(s@),
        start_fits(s@, r),
{
    !s.is_empty() && char_is_alphabetic(s.get_char(0))
}

/// For each character of `s`, whether it is alphanumeric.
fn alphanumeric_flags(s: &str) -> (flags: Vec<bool>)
    ensures
        flags@ == alphanumeric_answers(s@),
        answers_fit(s@, flags@),
{
    broadcast use vstd::string::axiom_spec_iter;

    let mut flags: Vec<bool> = Vec::new();
    for c in it: s.chars()
        invariant
            it.seq() == s@,
            flags@ == alphanumeric_answers(s@).take(it.index()),
            forall|i: int|
                0 <= i < flags@.len() && is_ascii_char(#[trigger] s@[i]) ==> (flags@[i]
                    <==> is_ascii_letter_or_digit(s@[i])),
    {
        assert(alphanumeric_answers(s@).take(it.index() + 1) =~= alphanumeric_answers(s@).take(
            it.index(),
        ).push(is_alphanumeric(c)));
        flags.push(char_is_alphanumeric(c));
    }
    assert(alphanumeric_answers(s@).take(s@.len() as int) =~= alphanumeric_answers(s@));
    flags
}

/// Checks a `key:value` tag, given whether the key starts with an alphabetic
/// character and, for each character of key and value, whether it is
/// alphanumeric: the start of the key, then the characters of the key, then
/// those of the value, then the length.
pub fn check_key_value_tag(
    key: &str,
    value: &str,
    key_starts_alphabetic: bool,
    key_alphanumeric: &[bool],
    value_alphanumeric: &[bool],
) -> (r: Result<(), TagError>)
    requires
        key_alphanumeric@.len() == key@.len(),
        value_alphanumeric@.len() == value@.len(),
        key@.len() + value@.len() + 1 <= usize::MAX,
    ensures
        r == key_value_check_given(
            key@,
            value@,
            key_starts_alphabetic,
            key_alphanumeric@,
            value_alphanumeric@,
        ),
{
    validate_start(key, key_starts_alphabetic)?;
    validate_characters("key", key, key_alphanumeric, false)?;
    validate_characters("value", value, value_alphanumeric, true)?;
    validate_length(key.unicode_len() + 1 + value.unicode_len())
}

/// Checks a tag without a value, given whether it starts with an alphabetic
/// character and, for each character, whether it is alphanumeric: its start,
/// its characters (checked as a value), then its length.
pub fn check_bare_tag(tag: &str, starts_alphabetic: bool, alphanumeric: &[bool]) -> (r: Result<
    (),
    TagError,
>)
    requires
        alphanumeric@.len() == tag@.len(),
    ensures
        r == bare_check_given(tag@, starts_alphabetic, alphanumeric@),
        r is Ok ==> tag@.len() <= usize::MAX,
{
    validate_start(tag, starts_alphabetic)?;
    validate_characters("value", tag, alphanumeric, true)?;
    validate_length(tag.unicode_len())
}

/// Checks that a tag starts with a letter, given whether its first character
/// is alphabetic.
fn validate_start(tag: &str, starts_alphabetic: bool) -> (r: Result<(), TagError>)
    ensures
        r == start_check_given(tag@, starts_alphabetic),
{
    if tag.is_empty() {
        Err(TagError::Empty)
    } else if starts_alphabetic {
        Ok(())
    } else {
        Err(TagError::MustStartWithLetter)
    }
}

/// Checks the characters of the `part` of a tag, given for each character
/// whether it is alphanumeric.
fn validate_characters(part: &'static str, input: &str, alphanumeric: &[bool], allow_colon: bool) -> (r:
    Result<(), TagError>)
    requires
        alphanumeric@.len() == input@.len(),
    ensures
        r == characters_check_given(part, input@, alphanumeric@, allow_colon),
{
    match find_disallowed(input, alphanumeric, allow_colon) {
        Some(character) => Err(TagError::InvalidCharacter { part, character }),
        None => Ok(()),
    }
}

/// The first character of `input` that may not stand in it, if any, given
/// for each character whether it is alphanumeric.
fn find_disallowed(input: &str, alphanumeric: &[bool], allow_colon: bool) -> (r: Option<char>)
    requires
        alphanumeric@.len() == input@.len(),
    ensures
        r == first_disallowed_given(input@, alphanumeric@, allow_colon),
{
    broadcast use vstd::string::axiom_spec_iter;

    let ghost s = input@;
    let ghost a = alphanumeric@;
    assert(s.skip(0) =~= s);
    assert(a.skip(0) =~= a);
    let mut k: usize = 0;
    for c in it: input.chars()
        invariant
            k == it.index(),
            it.seq() == s,
            s == input@,
            a == alphanumeric@,
            a.len() == s.len(),
            first_disallowed_given(s, a, allow_colon) == first_disallowed_given(
                s.skip(it.index()),
                a.skip(it.index()),
                allow_colon,
            ),
    {
        let ghost i = it.index();
        assert(s.skip(i).drop_first() =~= s.skip(i + 1));
        assert(a.skip(i).drop_first() =~= a.skip(i + 1));
        assert(s.skip(i)[0] == c);
        assert(a.skip(i)[0] == a[i]);
        if !(alphanumeric[k] || c == '_' || c == '-' || c == '.' || c == '/' || c == '@' || (
        allow_colon && c == ':')) {
            return Some(c);
        }
        k = k + 1;
    }
    assert(s.skip(s.len() as int) =~= Seq::<char>::empty());
    None
}

/// Checks the length of a tag of `characters` characters.
fn validate_length(characters: usize) -> (r: Result<(), TagError>)
    ensures
        r == length_check(characters),
{
    if characters > MAX_TAG_CHARACTERS {
        Err(TagError::TooLong { characters })
    } else {
        Ok(())
    }
}

} // verus!
