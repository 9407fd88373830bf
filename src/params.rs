use vstd::prelude::*;
use vstd::string::*;

use crate::error::{Error, Result};
use crate::model::c_compatible;

verus! {

/// One value of a configuration entry.
#[derive(Debug)]
pub enum ParamValue {
    /// An integer.
    Int(i64),
    /// A number that is not an integer, as the decimal text it is written with
    /// (`0.05`, `1e-3`).
    Number(String),
    /// A piece of text.
    Text(String),
    /// A value of another shape (a list, an object, a flag, nothing). The engine
    /// takes no such value.
    Unsupported,
}

/// A configuration: named values, each name at most once, in the order in which
/// they were first set. The order fixes the encoded text.
pub struct Config {
    entries: Vec<(String, ParamValue)>,
}

/// No two entries share a name.
pub open spec fn keys_unique(s: Seq<(String, ParamValue)>) -> bool {
    forall|i: int, j: int| 0 <= i < j < s.len() ==> s[i].0@ != s[j].0@
}

/// Whether some entry is named `k`.
pub open spec fn has_key(s: Seq<(String, ParamValue)>, k: Seq<char>) -> bool {
    exists|i: int| 0 <= i < s.len() && #[trigger] s[i].0@ == k
}

/// The value of the last entry named `k`, if any.
pub open spec fn lookup(s: Seq<(String, ParamValue)>, k: Seq<char>) -> Option<ParamValue>
    decreases s.len(),
{
    if s.len() == 0 {
        None
    } else if s.last().0@ == k {
        Some(s.last().1)
    } else {
        lookup(s.drop_last(), k)
    }
}

/// A character that separates nothing: no space, no control character.
pub open spec fn visible(c: char) -> bool {
    (c as u32) > 32
}

/// A name the engine reads back as one name: not empty, visible characters, no `=`.
pub open spec fn plain_key(k: Seq<char>) -> bool {
    k.len() > 0 && forall|i: int| 0 <= i < k.len() ==> visible(#[trigger] k[i]) && k[i] != '='
}

/// Text that can stand between quotes unescaped: visible characters, no `"` and no `\`.
pub open spec fn plain_text(t: Seq<char>) -> bool {
    forall|i: int| 0 <= i < t.len() ==> visible(#[trigger] t[i]) && t[i] != '"' && t[i] != '\\'
}

/// A character that may stand in the decimal text of a number.
pub open spec fn number_char(c: char) -> bool {
    ('0' <= c && c <= '9') || c == '.' || c == '-' || c == '+' || c == 'e' || c == 'E'
}

/// The decimal text of a number: not empty, digits, signs, point and exponent marks.
pub open spec fn number_text(t: Seq<char>) -> bool {
    t.len() > 0 && forall|i: int| 0 <= i < t.len() ==> number_char(#[trigger] t[i])
}

/// The character of a decimal digit.
pub open spec fn digit_char(d: int) -> char {
    if d == 0 {
        '0'
    } else if d == 1 {
        '1'
    } else if d == 2 {
        '2'
    } else if d == 3 {
        '3'
    } else if d == 4 {
        '4'
    } else if d == 5 {
        '5'
    } else if d == 6 {
        '6'
    } else if d == 7 {
        '7'
    } else if d == 8 {
        '8'
    } else {
        '9'
    }
}

/// The decimal digits of a natural number, without leading zeros.
pub open spec fn digits_of(n: nat) -> Seq<char>
    decreases n,
{
    if n < 10 {
        seq![digit_char(n as int)]
    } else {
        digits_of(n / 10) + seq![digit_char((n % 10) as int)]
    }
}

/// The decimal text of an integer.
pub open spec fn decimal(n: int) -> Seq<char> {
    if n < 0 {
        seq!['-'] + digits_of((-n) as nat)
    } else {
        digits_of(n as nat)
    }
}

/// Whether a value can be handed to the engine.
pub open spec fn encodable(v: ParamValue) -> bool {
    match v {
        ParamValue::Int(_) => true,
        ParamValue::Number(t) => number_text(t@),
        ParamValue::Text(t) => plain_text(t@),
        ParamValue::Unsupported => false,
    }
}

/// The text of a value: an integer in decimal, a number as written, text between quotes.
pub open spec fn rendered(v: ParamValue) -> Seq<char> {
    match v {
        ParamValue::Int(n) => decimal(n as int),
        ParamValue::Number(t) => t@,
        ParamValue::Text(t) => seq!['"'] + t@ + seq!['"'],
        ParamValue::Unsupported => Seq::empty(),
    }
}

/// `name=value` for one entry.
pub open spec fn pair_text(e: (String, ParamValue)) -> Seq<char> {
    e.0@ + seq!['='] + rendered(e.1)
}

/// The pairs of all entries, in order, joined by single spaces.
pub open spec fn joined(s: Seq<(String, ParamValue)>) -> Seq<char>
    decreases s.len(),
{
    if s.len() == 0 {
        Seq::empty()
    } else if s.len() == 1 {
        pair_text(s[0])
    } else {
        joined(s.drop_last()) + seq![' '] + pair_text(s.last())
    }
}

/// Every entry has a plain name and a value that can be handed to the engine.
pub open spec fn all_encodable(s: Seq<(String, ParamValue)>) -> bool {
    forall|i: int| #![trigger s[i]] 0 <= i < s.len() ==> plain_key(s[i].0@) && encodable(s[i].1)
}

impl View for Config {
    type V = Seq<(String, ParamValue)>;

    closed spec fn view(&self) -> Seq<(String, ParamValue)> {
        self.entries@
    }
}

/// Whether two texts are equal.
pub fn same_text(a: &str, b: &str) -> (r: bool)
    ensures
        r == (a@ == b@),
{
    let n = a.unicode_len();
    if n != b.unicode_len() {
        return false;
    }
    let mut i: usize = 0;
    while i < n
        invariant
            n == a@.len(),
            n == b@.len(),
            0 <= i <= n,
            forall|j: int| 0 <= j < i ==> a@[j] == b@[j],
        decreases n - i,
    {
        if a.get_char(i) != b.get_char(i) {
            return false;
        }
        i = i + 1;
    }
    proof {
        assert(a@ =~= b@);
    }
    true
}

impl Config {
    /// The keys are unique.
    pub open spec fn wf(&self) -> bool {
        keys_unique(self@)
    }

    /// An empty configuration.
    pub fn new() -> (r: Config)
        ensures
            r.wf(),
            r@ == Seq::<(String, ParamValue)>::empty(),
    {
        Config { entries: Vec::new() }
    }

    /// The number of entries.
    pub fn len(&self) -> (r: usize)
        ensures
            r == self@.len(),
    {
        self.entries.len()
    }

    /// Where the entry named `key` stands, if there is one.
    fn position(&self, key: &str) -> (r: Option<usize>)
        ensures
            r matches Some(i) ==> i < self@.len() && self@[i as int].0@ == key@
                && lookup(self@, key@) == Some(self@[i as int].1),
            r is None ==> !has_key(self@, key@) && lookup(self@, key@) is None,
    {
        let mut i = self.entries.len();
        proof {
            assert(self@.subrange(0, i as int) =~= self@);
        }
        while i > 0
            invariant
                0 <= i <= self@.len(),
                lookup(self@.subrange(0, i as int), key@) == lookup(self@, key@),
                forall|j: int| i <= j < self@.len() ==> #[trigger] self@[j].0@ != key@,
            decreases i,
        {
            i = i - 1;
            let ghost prefix = self@.subrange(0, i as int + 1);
            proof {
                assert(prefix.last() == self@[i as int]);
                assert(prefix.drop_last() =~= self@.subrange(0, i as int));
            }
            if same_text(self.entries[i].0.as_str(), key) {
                return Some(i);
            }
        }
        proof {
            if has_key(self@, key@) {
                let j = choose|j: int| 0 <= j < self@.len() && #[trigger] self@[j].0@ == key@;
                assert(self@[j].0@ != key@);
            }
        }
        None
    }

    /// The value named `key`, if any.
    pub fn get(&self, key: &str) -> (r: Option<&ParamValue>)
        ensures
            r matches Some(v) ==> lookup(self@, key@) == Some(*v),
            r is None ==> lookup(self@, key@) is None,
    {
        match self.position(key) {
            Some(i) => Some(&self.entries[i].1),
            None => None,
        }
    }

    /// Sets the value named `key`: in place where the name is already there,
    /// else as a new last entry.
    pub fn set(&mut self, key: String, value: ParamValue)
        requires
            old(self).wf(),
        ensures
            final(self).wf(),
            has_key(old(self)@, key@) ==> exists|i: int|
                0 <= i < old(self)@.len() && old(self)@[i].0@ == key@
                    && final(self)@ == old(self)@.update(i, (key, value)),
            !has_key(old(self)@, key@) ==> final(self)@ == old(self)@.push((key, value)),
    {
        match self.position(key.as_str()) {
            Some(i) => {
                let ghost before = self@;
                self.entries.remove(i);
                self.entries.insert(i, (key, value));
                proof {
                    assert(self@ =~= before.update(i as int, (key, value)));
                }
            },
            None => {
                let ghost before = self@;
                self.entries.push((key, value));
                proof {
                    assert forall|a: int, b: int| 0 <= a < b < self@.len() implies self@[a].0@
                        != self@[b].0@ by {
                        if b == before.len() {
                            assert(before[a].0@ != key@);
                        }
                    }
                }
            },
        }
    }
}

/// Whether `k` is a plain name.
fn is_plain_key(k: &str) -> (r: bool)
    ensures
        r == plain_key(k@),
{
    let n = k.unicode_len();
    if n == 0 {
        return false;
    }
    let mut i: usize = 0;
    while i < n
        invariant
            n == k@.len(),
            0 <= i <= n,
            forall|j: int| 0 <= j < i ==> visible(#[trigger] k@[j]) && k@[j] != '=',
        decreases n - i,
    {
        let c = k.get_char(i);
        if (c as u32) <= 32 || c == '=' {
            return false;
        }
        i = i + 1;
    }
    true
}

/// Whether `t` is plain text.
fn is_plain_text(t: &str) -> (r: bool)
    ensures
        r == plain_text(t@),
{
    let n = t.unicode_len();
    let mut i: usize = 0;
    while i < n
        invariant
            n == t@.len(),
            0 <= i <= n,
            forall|j: int| 0 <= j < i ==> visible(#[trigger] t@[j]) && t@[j] != '"' && t@[j] != '\\',
        decreases n - i,
    {
        let c = t.get_char(i);
        if (c as u32) <= 32 || c == '"' || c == '\\' {
            return false;
        }
        i = i + 1;
    }
    true
}

/// Whether `t` is the decimal text of a number.
fn is_number_text(t: &str) -> (r: bool)
    ensures
        r == number_text(t@),
{
    let n = t.unicode_len();
    if n == 0 {
        return false;
    }
    let mut i: usize = 0;
    while i < n
        invariant
            n == t@.len(),
            0 <= i <= n,
            forall|j: int| 0 <= j < i ==> number_char(#[trigger] t@[j]),
        decreases n - i,
    {
        let c = t.get_char(i);
        if !(('0' <= c && c <= '9') || c == '.' || c == '-' || c == '+' || c == 'e' || c == 'E') {
            return false;
        }
        i = i + 1;
    }
    true
}

/// Whether a value can be handed to the engine.
pub fn is_encodable(v: &ParamValue) -> (r: bool)
    ensures
        r == encodable(*v),
{
    match v {
        ParamValue::Int(_) => true,
        ParamValue::Number(t) => is_number_text(t.as_str()),
        ParamValue::Text(t) => is_plain_text(t.as_str()),
        ParamValue::Unsupported => false,
    }
}

/// The text of one decimal digit.
fn digit_text(d: u64) -> (r: &'static str)
    requires
        d < 10,
    ensures
        r@ == seq![digit_char(d as int)],
{
    let all = "0123456789";
    proof {
        reveal_strlit("0123456789");
    }
    let r = all.substring_char(d as usize, d as usize + 1);
    proof {
        assert(r@ =~= seq![all@[d as int]]);
    }
    r
}

/// Appends the decimal digits of `n`.
fn append_digits(out: &mut String, n: u64)
    ensures
        final(out)@ == old(out)@ + digits_of(n as nat),
    decreases n,
{
    if n >= 10 {
        append_digits(out, n / 10);
    }
    out.append(digit_text(n % 10));
    proof {
        if n >= 10 {
            assert(final(out)@ =~= old(out)@ + digits_of(n as nat));
        } else {
            assert(final(out)@ =~= old(out)@ + digits_of(n as nat));
        }
    }
}

/// Appends the text of a value that can be handed to the engine.
fn append_value(out: &mut String, v: &ParamValue)
    ensures
        final(out)@ == old(out)@ + rendered(*v),
{
    match v {
        ParamValue::Int(n) => {
            if *n < 0 {
                out.append("-");
                proof {
                    reveal_strlit("-");
                }
                let m: u64 = (0i128 - (*n as i128)) as u64;
                append_digits(out, m);
            } else {
                append_digits(out, *n as u64);
            }
            proof {
                assert(final(out)@ =~= old(out)@ + rendered(*v));
            }
        },
        ParamValue::Number(t) => {
            out.append(t.as_str());
        },
        ParamValue::Text(t) => {
            out.append("\"");
            out.append(t.as_str());
            out.append("\"");
            proof {
                reveal_strlit("\"");
                assert(final(out)@ =~= old(out)@ + rendered(*v));
            }
        },
        ParamValue::Unsupported => {
            proof {
                assert(final(out)@ =~= old(out)@ + rendered(*v));
            }
        },
    }
}

/// Encodes a configuration into the engine's parameter text: `name=value` for each
/// entry, in order, joined by single spaces. Nothing is added that the configuration
/// does not hold. Fails, naming the entry, on a name that is not plain or a value
/// that cannot be handed to the engine.
pub fn encode(config: &Config) -> (r: Result<String>)
    ensures
        r is Ok <==> all_encodable(config@),
        r matches Ok(t) ==> t@ == joined(config@),
        r matches Err(e) ==> e is EncodingFailure,
{
    let n = config.entries.len();
    let mut out = String::new();
    let mut i: usize = 0;
    while i < n
        invariant
            n == config@.len(),
            0 <= i <= n,
            out@ == joined(config@.subrange(0, i as int)),
            forall|j: int|
                #![trigger config@[j]]
                0 <= j < i ==> plain_key(config@[j].0@) && encodable(config@[j].1),
        decreases n - i,
    {
        let key = &config.entries[i].0;
        let value = &config.entries[i].1;
        if !is_plain_key(key.as_str()) || !is_encodable(value) {
            return Err(Error::EncodingFailure(key.clone()));
        }
        assert(plain_key(config@[i as int].0@) && encodable(config@[i as int].1));
        if i > 0 {
            out.append(" ");
            proof {
                reveal_strlit(" ");
            }
        }
        out.append(key.as_str());
        out.append("=");
        append_value(&mut out, value);
        proof {
            reveal_strlit("=");
            let s = config@.subrange(0, i as int + 1);
            assert(s.last() == config@[i as int]);
            assert(s.drop_last() =~= config@.subrange(0, i as int));
            if i == 0 {
                assert(out@ =~= joined(s));
            } else {
                assert(out@ =~= joined(s));
            }
        }
        i = i + 1;
    }
    proof {
        assert(config@.subrange(0, n as int) =~= config@);
    }
    assert(all_encodable(config@));
    Ok(out)
}

/// No character of `t` is `c`.
pub open spec fn lacks(t: Seq<char>, c: char) -> bool {
    forall|i: int| 0 <= i < t.len() ==> #[trigger] t[i] != c
}

/// Two texts without a character make one.
proof fn lemma_concat_lacks(a: Seq<char>, b: Seq<char>, c: char)
    requires
        lacks(a, c),
        lacks(b, c),
    ensures
        lacks(a + b, c),
{
    assert forall|i: int| 0 <= i < (a + b).len() implies #[trigger] (a + b)[i] != c by {
        if i < a.len() {
            assert((a + b)[i] == a[i]);
        } else {
            assert((a + b)[i] == b[i - a.len()]);
        }
    }
}

/// Decimal digits are visible characters.
proof fn lemma_digits_lack(n: nat, c: char)
    requires
        !visible(c),
    ensures
        lacks(digits_of(n), c),
    decreases n,
{
    if n >= 10 {
        lemma_digits_lack(n / 10, c);
        lemma_concat_lacks(digits_of(n / 10), seq![digit_char((n % 10) as int)], c);
    }
}

/// The text of a value that can be handed to the engine is made of visible characters.
proof fn lemma_rendered_lacks(v: ParamValue, c: char)
    requires
        encodable(v),
        !visible(c),
    ensures
        lacks(rendered(v), c),
{
    match v {
        ParamValue::Int(n) => {
            if n < 0 {
                lemma_digits_lack((-n) as nat, c);
                lemma_concat_lacks(seq!['-'], digits_of((-n) as nat), c);
            } else {
                lemma_digits_lack(n as nat, c);
            }
        },
        ParamValue::Number(t) => {
            assert forall|i: int| 0 <= i < t@.len() implies #[trigger] t@[i] != c by {
                assert(number_char(t@[i]));
            }
        },
        ParamValue::Text(t) => {
            assert forall|i: int| 0 <= i < t@.len() implies #[trigger] t@[i] != c by {
                assert(visible(t@[i]));
            }
            lemma_concat_lacks(seq!['"'], t@, c);
            lemma_concat_lacks(seq!['"'] + t@, seq!['"'], c);
        },
        ParamValue::Unsupported => {},
    }
}

/// The pair of an entry that can be encoded is made of visible characters.
proof fn lemma_pair_lacks(e: (String, ParamValue), c: char)
    requires
        plain_key(e.0@),
        encodable(e.1),
        !visible(c),
    ensures
        lacks(pair_text(e), c),
{
    assert forall|i: int| 0 <= i < e.0@.len() implies #[trigger] e.0@[i] != c by {
        assert(visible(e.0@[i]));
    }
    lemma_rendered_lacks(e.1, c);
    lemma_concat_lacks(e.0@, seq!['='], c);
    lemma_concat_lacks(e.0@ + seq!['='], rendered(e.1), c);
}

/// The parameter text of a configuration that can be encoded holds no zero
/// character, so it always passes to the engine as a C string.
pub proof fn lemma_encoding_c_compatible(s: Seq<(String, ParamValue)>)
    requires
        all_encodable(s),
    ensures
        c_compatible(joined(s)),
    decreases s.len(),
{
    if s.len() > 0 {
        let e = s.last();
        assert(s[s.len() - 1] == e);
        lemma_pair_lacks(e, '\0');
        if s.len() > 1 {
            let t = s.drop_last();
            assert forall|i: int| #![trigger t[i]] 0 <= i < t.len() implies plain_key(t[i].0@)
                && encodable(t[i].1) by {
                assert(t[i] == s[i]);
            }
            lemma_encoding_c_compatible(t);
            lemma_concat_lacks(joined(t), seq![' '], '\0');
            lemma_concat_lacks(joined(t) + seq![' '], pair_text(e), '\0');
        } else {
            assert(s[0] == e);
        }
    }
    assert(lacks(joined(s), '\0'));
}

/// No pair of an encoded configuration holds a space. The parameter text is the
/// pairs joined by single spaces, so the engine splits it back into exactly the
/// configured pairs.
pub proof fn lemma_pairs_unspaced(s: Seq<(String, ParamValue)>)
    requires
        all_encodable(s),
    ensures
        forall|i: int| 0 <= i < s.len() ==> lacks(#[trigger] pair_text(s[i]), ' '),
{
    assert forall|i: int| 0 <= i < s.len() implies lacks(#[trigger] pair_text(s[i]), ' ') by {
        assert(plain_key(s[i].0@) && encodable(s[i].1));
        lemma_pair_lacks(s[i], ' ');
    }
}

} // verus!
