use vstd::prelude::*;
use crate::ast::{Value, ValueModel, values_model};

verus! {

/// The text that `str::trim` leaves of a string.
pub uninterp spec fn trimmed(s: Seq<char>) -> Seq<char>;

/// Whether `char::is_alphabetic` holds of a character.
pub uninterp spec fn alphabetic(c: char) -> bool;

/// Relies on `str::trim`: the string without leading and trailing
/// whitespace, which is a part of the input and so no longer than it.
#[verifier::external_body]
pub(crate) fn trim(s: &str) -> (r: &str)
    ensures
        r@ == trimmed(s@),
        r@.len() <= s@.len(),
{
    s.trim()
}

/// Relies on `char::is_alphabetic`: the Unicode `Alphabetic` property.
#[verifier::external_body]
fn is_alphabetic(c: char) -> (r: bool)
    ensures
        r == alphabetic(c),
{
    c.is_alphabetic()
}

/// A literal that no rule of the grammar accepts.
#[derive(Debug)]
pub struct LiteralError {
    pub text: String,
}

pub open spec fn is_digit(c: char) -> bool {
    '0' <= c && c <= '9'
}

pub open spec fn is_sign(c: char) -> bool {
    c == '+' || c == '-'
}

/// The end of the run of decimal digits that starts at `from`.
pub open spec fn digit_run_end(s: Seq<char>, from: int) -> int
    decreases s.len() - from,
{
    if 0 <= from < s.len() && is_digit(s[from]) {
        digit_run_end(s, from + 1)
    } else {
        from
    }
}

/// The position after an optional sign at `k`.
pub open spec fn skip_sign(s: Seq<char>, k: int) -> int {
    if 0 <= k < s.len() && is_sign(s[k]) {
        k + 1
    } else {
        k
    }
}

/// The text from `k` on is empty or an exponent: `e` or `E`, an optional
/// sign, and at least one digit.
pub open spec fn exponent_from(s: Seq<char>, k: int) -> bool {
    k == s.len() || (0 <= k < s.len() && (s[k] == 'e' || s[k] == 'E') && {
        let d = skip_sign(s, k + 1);
        d < s.len() && digit_run_end(s, d) == s.len()
    })
}

/// Decimal floating-point text with a point: an optional sign, digits, a
/// point, digits (at least one digit on either side), an optional exponent.
pub open spec fn float_syntax(s: Seq<char>) -> bool {
    let a = skip_sign(s, 0);
    let i = digit_run_end(s, a);
    i < s.len() && s[i] == '.' && {
        let j = digit_run_end(s, i + 1);
        (i - a) + (j - i - 1) >= 1 && exponent_from(s, j)
    }
}

/// Non-empty text of decimal digits only.
pub open spec fn all_digits(s: Seq<char>) -> bool {
    s.len() > 0 && forall|i: int| 0 <= i < s.len() ==> is_digit(#[trigger] s[i])
}

/// Non-empty text of alphabetic characters only.
pub open spec fn all_alphabetic(s: Seq<char>) -> bool {
    s.len() > 0 && forall|i: int| 0 <= i < s.len() ==> alphabetic(#[trigger] s[i])
}

/// The number that a text of decimal digits denotes.
pub open spec fn digits_value(s: Seq<char>) -> int
    decreases s.len(),
{
    if s.len() == 0 {
        0
    } else {
        digits_value(s.drop_last()) * 10 + (s.last() as int - '0' as int)
    }
}

/// The pieces of a text between its commas, as `str::split(',')` gives them.
pub open spec fn split_commas(s: Seq<char>) -> Seq<Seq<char>>
    decreases s.len(),
{
    if s.len() == 0 {
        seq![Seq::empty()]
    } else {
        let rest = split_commas(s.drop_last());
        if s.last() == ',' {
            rest.push(Seq::empty())
        } else {
            rest.update(rest.len() - 1, rest.last().push(s.last()))
        }
    }
}

pub proof fn lemma_split_commas_bounds(s: Seq<char>)
    ensures
        1 <= split_commas(s).len() <= s.len() + 1,
        forall|k: int| 0 <= k < split_commas(s).len() ==> (#[trigger] split_commas(s)[k]).len() <= s.len(),
    decreases s.len(),
{
    if s.len() > 0 {
        lemma_split_commas_bounds(s.drop_last());
    }
}

proof fn lemma_digits_value_grows(s: Seq<char>, k: int)
    requires
        0 <= k <= s.len(),
        forall|i: int| 0 <= i < s.len() ==> is_digit(#[trigger] s[i]),
    ensures
        0 <= digits_value(s.subrange(0, k)) <= digits_value(s),
    decreases s.len(),
{
    if s.len() > 0 {
        let t = s.drop_last();
        if k < s.len() {
            assert(t.subrange(0, k) == s.subrange(0, k));
            lemma_digits_value_grows(t, k);
        } else {
            assert(s.subrange(0, k) == s);
            lemma_digits_value_grows(t, 0);
        }
    }
}

/// The end of the digit run that starts at `from`.
fn digit_run(s: &str, from: usize) -> (r: usize)
    requires
        from <= s@.len(),
    ensures
        r == digit_run_end(s@, from as int),
        from <= r <= s@.len(),
{
    let n = s.unicode_len();
    let mut i = from;
    while i < n && '0' <= s.get_char(i) && s.get_char(i) <= '9'
        invariant
            n == s@.len(),
            from <= i <= n,
            digit_run_end(s@, from as int) == digit_run_end(s@, i as int),
        decreases n - i,
    {
        i += 1;
    }
    i
}

/// The position after an optional sign at `k`.
fn after_sign(s: &str, k: usize) -> (r: usize)
    requires
        k <= s@.len(),
    ensures
        r == skip_sign(s@, k as int),
{
    if k < s.unicode_len() && (s.get_char(k) == '+' || s.get_char(k) == '-') {
        k + 1
    } else {
        k
    }
}

/// Whether the text is decimal floating-point text with a point.
fn is_float_text(s: &str) -> (r: bool)
    ensures
        r == float_syntax(s@),
{
    let n = s.unicode_len();
    let a = after_sign(s, 0);
    let i = digit_run(s, a);
    if i >= n || s.get_char(i) != '.' {
        return false;
    }
    let j = digit_run(s, i + 1);
    if (i - a) + (j - i - 1) < 1 {
        return false;
    }
    if j == n {
        return true;
    }
    if s.get_char(j) != 'e' && s.get_char(j) != 'E' {
        return false;
    }
    let d = after_sign(s, j + 1);
    d < n && digit_run(s, d) == n
}

/// Whether the text holds the character `c`.
fn contains_char(s: &str, c: char) -> (r: bool)
    ensures
        r == s@.contains(c),
{
    let n = s.unicode_len();
    let mut i: usize = 0;
    while i < n
        invariant
            n == s@.len(),
            i <= n,
            forall|k: int| 0 <= k < i ==> s@[k] != c,
        decreases n - i,
    {
        if s.get_char(i) == c {
            return true;
        }
        i += 1;
    }
    false
}

/// Whether the text is non-empty and every character is alphabetic.
fn is_identifier(s: &str) -> (r: bool)
    ensures
        r == all_alphabetic(s@),
{
    let n = s.unicode_len();
    if n == 0 {
        return false;
    }
    let mut i: usize = 0;
    while i < n
        invariant
            n == s@.len(),
            i <= n,
            forall|k: int| 0 <= k < i ==> alphabetic(#[trigger] s@[k]),
        decreases n - i,
    {
        if !is_alphabetic(s.get_char(i)) {
            return false;
        }
        i += 1;
    }
    true
}

/// The value of a text of decimal digits, where it fits in an `i32`.
fn digits_to_i32(s: &str) -> (r: Option<i32>)
    requires
        all_digits(s@),
    ensures
        digits_value(s@) <= i32::MAX ==> r == Some(digits_value(s@) as i32),
        digits_value(s@) > i32::MAX ==> r is None,
{
    let n = s.unicode_len();
    let mut v: i32 = 0;
    let mut i: usize = 0;
    while i < n
        invariant
            n == s@.len(),
            i <= n,
            all_digits(s@),
            v as int == digits_value(s@.subrange(0, i as int)),
        decreases n - i,
    {
        let c = s.get_char(i);
        let d = (c as u32 - '0' as u32) as i32;
        proof {
            assert(s@.subrange(0, i + 1).drop_last() == s@.subrange(0, i as int));
            lemma_digits_value_grows(s@, i + 1);
        }
        if v > (i32::MAX - d) / 10 {
            return None;
        }
        v = v * 10 + d;
        i += 1;
    }
    proof {
        assert(s@.subrange(0, n as int) == s@);
    }
    Some(v)
}

/// The pieces of a text between its commas.
fn split_at_commas<'a>(s: &'a str) -> (r: Vec<&'a str>)
    ensures
        r@.map_values(|p: &str| p@) == split_commas(s@),
{
    let n = s.unicode_len();
    let mut parts: Vec<&'a str> = Vec::new();
    let mut start: usize = 0;
    let mut i: usize = 0;
    proof {
        assert(s@.subrange(0, 0) == Seq::<char>::empty());
        assert(parts@.map_values(|p: &str| p@).push(s@.subrange(0, 0)) == seq![Seq::<char>::empty()]);
    }
    while i < n
        invariant
            n == s@.len(),
            start <= i <= n,
            split_commas(s@.subrange(0, i as int)) == parts@.map_values(|p: &str| p@).push(
                s@.subrange(start as int, i as int),
            ),
        decreases n - i,
    {
        let ghost pre = s@.subrange(0, i + 1);
        let ghost old_parts = parts@.map_values(|p: &str| p@);
        proof {
            assert(pre.drop_last() == s@.subrange(0, i as int));
        }
        if s.get_char(i) == ',' {
            let piece = s.substring_char(start, i);
            parts.push(piece);
            start = i + 1;
            proof {
                assert(parts@.map_values(|p: &str| p@) == old_parts.push(piece@));
                assert(s@.subrange(start as int, i + 1) == Seq::<char>::empty());
            }
        } else {
            proof {
                assert(s@.subrange(start as int, i + 1) == s@.subrange(start as int, i as int).push(s@[i as int]));
                assert(split_commas(pre) == old_parts.push(s@.subrange(start as int, i + 1)));
            }
        }
        i += 1;
    }
    let last = s.substring_char(start, n);
    let ghost old_parts = parts@.map_values(|p: &str| p@);
    parts.push(last);
    proof {
        assert(s@.subrange(0, n as int) == s@);
        assert(parts@.map_values(|p: &str| p@) == old_parts.push(last@));
    }
    parts
}

/// What the literal grammar makes of a text, tried rule by rule in a fixed
/// order; `None` where no rule accepts it.
pub open spec fn literal_spec(s: Seq<char>) -> Option<ValueModel>
    decreases s.len(), s.len() + 2,
{
    if s == seq!['t', 'r', 'u', 'e'] {
        Some(ValueModel::Boolean(true))
    } else if s == seq!['f', 'a', 'l', 's', 'e'] {
        Some(ValueModel::Boolean(false))
    } else if s.len() > 0 && s[0] == '"' {
        if s.len() >= 2 && s.last() == '"' {
            Some(ValueModel::Str(s.subrange(1, s.len() - 1)))
        } else {
            None
        }
    } else if s.len() > 0 && s[0] == '[' {
        if s.len() >= 2 && s.last() == ']' {
            let inner = s.subrange(1, s.len() - 1);
            proof {
                lemma_split_commas_bounds(inner);
            }
            match literal_items(split_commas(inner), s.len()) {
                Some(items) => Some(ValueModel::List(items)),
                None => None,
            }
        } else {
            None
        }
    } else if s.contains('.') {
        if float_syntax(s) {
            Some(ValueModel::Float(s))
        } else {
            None
        }
    } else if all_digits(s) {
        if digits_value(s) <= i32::MAX {
            Some(ValueModel::Int(digits_value(s)))
        } else {
            None
        }
    } else if all_alphabetic(s) {
        Some(ValueModel::Variable(s))
    } else {
        None
    }
}

/// The elements of a list literal: each piece, trimmed, read as a literal.
/// `bound` is the length of the whole list text, which every trimmed piece
/// stays under.
pub open spec fn literal_items(pieces: Seq<Seq<char>>, bound: nat) -> Option<Seq<ValueModel>>
    decreases bound, pieces.len(),
{
    if pieces.len() == 0 {
        Some(Seq::empty())
    } else {
        match literal_items(pieces.drop_last(), bound) {
            None => None,
            Some(front) => {
                let t = trimmed(pieces.last());
                if t.len() < bound {
                    match literal_spec(t) {
                        Some(v) => Some(front.push(v)),
                        None => None,
                    }
                } else {
                    None
                }
            },
        }
    }
}

proof fn lemma_digit_run_to_end(s: Seq<char>, from: int)
    requires
        0 <= from <= s.len(),
    ensures
        digit_run_end(s, from) == s.len() <==> forall|k: int| from <= k < s.len() ==> is_digit(#[trigger] s[k]),
    decreases s.len() - from,
{
    if from < s.len() {
        lemma_digit_run_to_end(s, from + 1);
    }
}

proof fn lemma_literal_items_fail(pieces: Seq<Seq<char>>, j: int, bound: nat)
    requires
        0 <= j <= pieces.len(),
        literal_items(pieces.subrange(0, j), bound) is None,
    ensures
        literal_items(pieces, bound) is None,
    decreases pieces.len(),
{
    if j < pieces.len() {
        assert(pieces.drop_last().subrange(0, j) == pieces.subrange(0, j));
        lemma_literal_items_fail(pieces.drop_last(), j, bound);
    } else {
        assert(pieces.subrange(0, j) == pieces);
    }
}

/// Whether the text is exactly the word `w`.
pub(crate) fn is_word(s: &str, w: &str) -> (r: bool)
    ensures
        r == (s@ == w@),
{
    let n = s.unicode_len();
    if n != w.unicode_len() {
        return false;
    }
    let mut i: usize = 0;
    while i < n
        invariant
            n == s@.len(),
            n == w@.len(),
            i <= n,
            forall|k: int| 0 <= k < i ==> s@[k] == w@[k],
        decreases n - i,
    {
        if s.get_char(i) != w.get_char(i) {
            return false;
        }
        i += 1;
    }
    proof {
        assert(s@ == w@);
    }
    true
}

/// Reads one literal: `true` or `false`, a quoted string, a bracketed
/// comma-separated list, a decimal number with a point, a non-negative
/// integer that fits in an `i32`, or an alphabetic name, tried in this order.
pub fn parse_literal(s: &str) -> (r: Result<Value, LiteralError>)
    ensures
        match r {
            Ok(v) => literal_spec(s@) == Some(v.model()),
            Err(e) => literal_spec(s@) is None && e.text@ == s@,
        },
    decreases s@.len(),
{
    let n = s.unicode_len();
    proof {
        reveal_strlit("true");
        reveal_strlit("false");
        assert("true"@ == seq!['t', 'r', 'u', 'e']);
        assert("false"@ == seq!['f', 'a', 'l', 's', 'e']);
    }
    if is_word(s, "true") {
        return Ok(Value::Boolean(true));
    }
    if is_word(s, "false") {
        return Ok(Value::Boolean(false));
    }
    if n > 0 && s.get_char(0) == '"' {
        if n >= 2 && s.get_char(n - 1) == '"' {
            return Ok(Value::String(s.substring_char(1, n - 1).to_owned()));
        }
        return Err(LiteralError { text: s.to_owned() });
    }
    if n > 0 && s.get_char(0) == '[' {
        if n >= 2 && s.get_char(n - 1) == ']' {
            let inner = s.substring_char(1, n - 1);
            let pieces = split_at_commas(inner);
            let ghost models = pieces@.map_values(|p: &str| p@);
            proof {
                lemma_split_commas_bounds(inner@);
            }
            let mut items: Vec<Value> = Vec::new();
            let mut k: usize = 0;
            while k < pieces.len()
                invariant
                    n == s@.len(),
                    n >= 2,
                    s@[0] == '[',
                    s@[n - 1] == ']',
                    inner@ == s@.subrange(1, n - 1),
                    models == pieces@.map_values(|p: &str| p@),
                    models == split_commas(inner@),
                    forall|j: int| 0 <= j < models.len() ==> (#[trigger] models[j]).len() <= inner@.len(),
                    k <= pieces.len(),
                    literal_items(models.subrange(0, k as int), n as nat) == Some(values_model(items@)),
                decreases pieces.len() - k,
            {
                let piece = trim(pieces[k]);
                proof {
                    assert(models.subrange(0, k + 1).drop_last() == models.subrange(0, k as int));
                    assert(models[k as int] == pieces@[k as int]@);
                }
                match parse_literal(piece) {
                    Ok(v) => {
                        let ghost front = items@;
                        items.push(v);
                        proof {
                            assert(items@.drop_last() == front);
                        }
                    },
                    Err(_) => {
                        proof {
                            let pre = models.subrange(0, k + 1);
                            assert(pre.last() == models[k as int]);
                            assert(literal_items(pre, n as nat) is None);
                            lemma_literal_items_fail(models, k + 1, n as nat);
                        }
                        return Err(LiteralError { text: s.to_owned() });
                    },
                }
                k += 1;
            }
            proof {
                assert(models.subrange(0, pieces.len() as int) == models);
            }
            return Ok(Value::List(items));
        }
        return Err(LiteralError { text: s.to_owned() });
    }
    if contains_char(s, '.') {
        if is_float_text(s) {
            return Ok(Value::Float(s.to_owned()));
        }
        return Err(LiteralError { text: s.to_owned() });
    }
    proof {
        lemma_digit_run_to_end(s@, 0);
    }
    if n > 0 && digit_run(s, 0) == n {
        proof {
            lemma_digits_value_grows(s@, 0);
        }
        match digits_to_i32(s) {
            Some(v) => {
                return Ok(Value::Int(v));
            },
            None => {
                return Err(LiteralError { text: s.to_owned() });
            },
        }
    }
    if is_identifier(s) {
        return Ok(Value::Variable(s.to_owned()));
    }
    Err(LiteralError { text: s.to_owned() })
}

impl std::str::FromStr for Value {
    type Err = LiteralError;

    /// Reads one literal, as [`parse_literal`] does.
    fn from_str(s: &str) -> (r: Result<Value, LiteralError>)
        ensures
            match r {
                Ok(v) => literal_spec(s@) == Some(v.model()),
                Err(e) => literal_spec(s@) is None && e.text@ == s@,
            },
    {
        parse_literal(s)
    }
}

} // verus!
