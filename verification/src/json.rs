//! JSON text: quoting, numbers, arrays and objects, in the compact form without
//! white space.
use vstd::prelude::*;

use crate::text::{digit, is_digit, join, join_texts, same_text, texts};

verus! {

// ---------- strings ----------

/// The lowercase hexadecimal digit for `n`.
pub open spec fn hex(n: int) -> char {
    if n < 10 {
        (48 + n) as char
    } else {
        (87 + n) as char
    }
}

/// How one character stands inside a JSON string.
pub open spec fn escaped(c: char) -> Seq<char> {
    let n = c as int;
    if c == '"' {
        seq!['\\', '"']
    } else if c == '\\' {
        seq!['\\', '\\']
    } else if n == 0x8 {
        seq!['\\', 'b']
    } else if n == 0x9 {
        seq!['\\', 't']
    } else if n == 0xa {
        seq!['\\', 'n']
    } else if n == 0xc {
        seq!['\\', 'f']
    } else if n == 0xd {
        seq!['\\', 'r']
    } else if n < 0x20 {
        seq!['\\', 'u', '0', '0', hex(n / 16), hex(n % 16)]
    } else {
        seq![c]
    }
}

/// The characters of `s`, each as it stands inside a JSON string.
pub open spec fn escapes(s: Seq<char>) -> Seq<char>
    decreases s.len(),
{
    if s.len() == 0 {
        Seq::empty()
    } else {
        escapes(s.drop_last()) + escaped(s.last())
    }
}

/// `s` as a JSON string.
pub open spec fn quoted(s: Seq<char>) -> Seq<char> {
    seq!['"'] + escapes(s) + seq!['"']
}

/// `serde_json::Value::from(&str)` and its `Display`: the text as a JSON string, in
/// which the quote, the backslash and the control characters below U+0020 are
/// escaped and everything else stands as it is.
#[verifier::external_body]
fn string_value_text(s: &str) -> (r: String)
    ensures
        r@ == quoted(s@),
{
    serde_json::Value::from(s).to_string()
}

/// `s` as a JSON string.
pub fn quote(s: &str) -> (r: String)
    ensures
        r@ == quoted(s@),
{
    string_value_text(s)
}

// ---------- numbers ----------

/// True of one or more digits.
pub open spec fn all_digits(s: Seq<char>) -> bool {
    s.len() > 0 && forall|i: int| 0 <= i < s.len() ==> is_digit(#[trigger] s[i])
}

/// True of a whole number without superfluous leading zeros.
pub open spec fn is_whole(s: Seq<char>) -> bool {
    all_digits(s) && (s.len() > 1 ==> s[0] != '0')
}

/// True of an optional `-` and a whole number.
pub open spec fn is_integer(s: Seq<char>) -> bool {
    is_whole(s) || (s.len() > 0 && s[0] == '-' && is_whole(s.drop_first()))
}

/// True of an integer followed by a point and one or more digits.
pub open spec fn is_plain_decimal(s: Seq<char>) -> bool {
    exists|k: int|
        0 <= k < s.len() && #[trigger] s[k] == '.' && is_integer(s.take(k)) && all_digits(
            s.skip(k + 1),
        )
}

/// True of a number without an exponent.
pub open spec fn is_plain_number(s: Seq<char>) -> bool {
    is_integer(s) || is_plain_decimal(s)
}

/// What `serde_json::Number` reads from a text: the digits it keeps, or nothing
/// where the text is no JSON number.
pub uninterp spec fn number_text(s: Seq<char>) -> Option<Seq<char>>;

/// The text view of an optional string.
pub open spec fn opt_view(o: Option<String>) -> Option<Seq<char>> {
    match o {
        Some(s) => Some(s@),
        None => None,
    }
}

/// `str::parse::<serde_json::Number>` and the `Display` of the number: nothing where
/// the text is no JSON number, and otherwise the number's digits. A number without an
/// exponent keeps its text, however many digits it has.
#[verifier::external_body]
fn parse_number(s: &str) -> (r: Option<String>)
    ensures
        opt_view(r) == number_text(s@),
        is_plain_number(s@) ==> opt_view(r) == Some(s@),
{
    s.parse::<serde_json::Number>().ok().map(|n| n.to_string())
}

/// A JSON value: a string with its content, or any other value with its text.
#[derive(Debug)]
pub enum JsonValue {
    Text(String),
    Raw(String),
}

/// The model of a JSON value.
pub enum JsonModel {
    Text(Seq<char>),
    Raw(Seq<char>),
}

impl View for JsonValue {
    type V = JsonModel;

    open spec fn view(&self) -> JsonModel {
        match self {
            JsonValue::Text(s) => JsonModel::Text(s@),
            JsonValue::Raw(s) => JsonModel::Raw(s@),
        }
    }
}

/// The JSON text of a value.
pub open spec fn value_text(v: JsonModel) -> Seq<char> {
    match v {
        JsonModel::Text(s) => quoted(s),
        JsonModel::Raw(s) => s,
    }
}

/// A value as an object key: a string's content, any other value's text.
pub open spec fn key_text(v: JsonModel) -> Seq<char> {
    match v {
        JsonModel::Text(s) => s,
        JsonModel::Raw(s) => s,
    }
}

impl JsonValue {
    /// The JSON text of the value.
    pub fn text(&self) -> (r: String)
        ensures
            r@ == value_text(self@),
    {
        match self {
            JsonValue::Text(s) => quote(s.as_str()),
            JsonValue::Raw(s) => s.clone(),
        }
    }

    /// The value as an object key.
    pub fn into_key(self) -> (r: String)
        ensures
            r@ == key_text(self@),
    {
        match self {
            JsonValue::Text(s) => s,
            JsonValue::Raw(s) => s,
        }
    }
}

/// A number with the digits that were read, or the text itself where none were.
pub open spec fn number_or(digits: Option<Seq<char>>, s: Seq<char>) -> JsonModel {
    match digits {
        Some(n) => JsonModel::Raw(n),
        None => JsonModel::Text(s),
    }
}

/// The number that `s` writes, or the text itself where it writes none. A number
/// without an exponent keeps its digits.
pub open spec fn number_or_text(s: Seq<char>) -> JsonModel {
    if is_plain_number(s) {
        JsonModel::Raw(s)
    } else {
        number_or(number_text(s), s)
    }
}

/// A number with the digits that were read, or the text itself where none were.
pub fn json_number_or(digits: Option<String>, s: &str) -> (r: JsonValue)
    ensures
        r@ == number_or(opt_view(digits), s@),
{
    match digits {
        Some(n) => JsonValue::Raw(n),
        None => JsonValue::Text(s.to_owned()),
    }
}

/// Read a JSON number of any size, keeping its digits; a text that is no number
/// becomes a string.
pub fn json_number_from_str(s: &str) -> (r: JsonValue)
    ensures
        r@ == number_or_text(s@),
{
    json_number_or(parse_number(s), s)
}

/// Decimal digits form a JSON integer.
pub proof fn lemma_dec_is_integer(n: int)
    ensures
        is_integer(crate::text::dec_int(n)),
{
    if n < 0 {
        crate::text::lemma_dec_digits((-n) as nat);
        let s = crate::text::dec_int(n);
        assert(s.drop_first() =~= crate::text::dec((-n) as nat));
    } else {
        crate::text::lemma_dec_digits(n as nat);
        if n < 10 {
            assert(crate::text::dec(n as nat).len() == 1);
        }
    }
}

// ---------- arrays and objects ----------

/// A JSON array of the given texts.
pub open spec fn array(items: Seq<Seq<char>>) -> Seq<char> {
    "["@ + join(items, ","@) + "]"@
}

/// One member of an object.
pub open spec fn member(key: Seq<char>, value: Seq<char>) -> Seq<char> {
    quoted(key) + ":"@ + value
}

/// A JSON object of the given members, in order.
pub open spec fn object(members: Seq<(Seq<char>, Seq<char>)>) -> Seq<char> {
    "{"@ + join(members.map_values(|m: (Seq<char>, Seq<char>)| member(m.0, m.1)), ","@) + "}"@
}

/// Position of `key` among the members, or their number.
pub open spec fn key_position(members: Seq<(Seq<char>, Seq<char>)>, key: Seq<char>) -> nat
    decreases members.len(),
{
    if members.len() == 0 || members[0].0 == key {
        0
    } else {
        1 + key_position(members.drop_first(), key)
    }
}

/// The members after setting `key`: a key that is there already keeps its place and
/// takes the new value; a new one comes last.
pub open spec fn put(
    members: Seq<(Seq<char>, Seq<char>)>,
    key: Seq<char>,
    value: Seq<char>,
) -> Seq<(Seq<char>, Seq<char>)> {
    let at = key_position(members, key);
    if at < members.len() {
        members.update(at as int, (key, value))
    } else {
        members.push((key, value))
    }
}

/// The members that setting the given keys one after another leaves.
pub open spec fn put_all(entries: Seq<(Seq<char>, Seq<char>)>) -> Seq<(Seq<char>, Seq<char>)>
    decreases entries.len(),
{
    if entries.len() == 0 {
        Seq::empty()
    } else {
        put(put_all(entries.drop_last()), entries.last().0, entries.last().1)
    }
}

proof fn lemma_key_position(members: Seq<(Seq<char>, Seq<char>)>, key: Seq<char>, n: int)
    requires
        0 <= n <= members.len(),
        n < members.len() ==> members[n].0 == key,
        forall|i: int| 0 <= i < n ==> (#[trigger] members[i]).0 != key,
    ensures
        key_position(members, key) == n,
    decreases n,
{
    if n > 0 {
        assert(members[0].0 != key);
        lemma_key_position(members.drop_first(), key, n - 1);
    }
}

/// The texts of pairs.
pub open spec fn pairs_of(v: Seq<(String, String)>) -> Seq<(Seq<char>, Seq<char>)> {
    v.map_values(|p: (String, String)| (p.0@, p.1@))
}

/// The members of an object being built.
#[derive(Debug)]
pub struct Members {
    keys: Vec<String>,
    values: Vec<String>,
}

impl View for Members {
    type V = Seq<(Seq<char>, Seq<char>)>;

    closed spec fn view(&self) -> Seq<(Seq<char>, Seq<char>)> {
        Seq::new(self.keys@.len(), |i: int| (self.keys@[i]@, self.values@[i]@))
    }
}

impl Members {
    /// Each key has its value.
    pub closed spec fn wf(&self) -> bool {
        self.keys@.len() == self.values@.len()
    }

    pub fn new() -> (r: Self)
        ensures
            r.wf(),
            r@ == Seq::<(Seq<char>, Seq<char>)>::empty(),
    {
        let r = Members { keys: Vec::new(), values: Vec::new() };
        proof {
            assert(r@ =~= Seq::<(Seq<char>, Seq<char>)>::empty());
        }
        r
    }

    /// Set `key` to the JSON text `value`.
    pub fn set(&mut self, key: &str, value: String)
        requires
            old(self).wf(),
        ensures
            final(self).wf(),
            final(self)@ == put(old(self)@, key@, value@),
    {
        let ghost before = self@;
        let mut i: usize = 0;
        while i < self.keys.len()
            invariant
                i <= self.keys@.len(),
                self.wf(),
                self@ == before,
                before == old(self)@,
                forall|j: int| 0 <= j < i ==> (#[trigger] before[j]).0 != key@,
            decreases self.keys@.len() - i,
        {
            proof {
                assert(before[i as int].0 == self.keys@[i as int]@);
            }
            if same_text(self.keys[i].as_str(), key) {
                proof {
                    lemma_key_position(before, key@, i as int);
                }
                self.values[i] = value;
                proof {
                    assert(self@ =~= before.update(i as int, (key@, value@)));
                }
                return ;
            }
            i += 1;
        }
        proof {
            lemma_key_position(before, key@, i as int);
        }
        self.keys.push(key.to_owned());
        self.values.push(value);
        proof {
            assert(self@ =~= before.push((key@, value@)));
        }
    }

    /// Add a member whose key is not there yet.
    pub fn add_new(&mut self, key: &str, value: String)
        requires
            old(self).wf(),
        ensures
            final(self).wf(),
            final(self)@ == old(self)@.push((key@, value@)),
    {
        let ghost before = self@;
        self.keys.push(key.to_owned());
        self.values.push(value);
        proof {
            assert(self@ =~= before.push((key@, value@)));
        }
    }

    /// The members as pairs of key and value.
    pub fn into_pairs(self) -> (r: Vec<(String, String)>)
        requires
            self.wf(),
        ensures
            pairs_of(r@) == self@,
    {
        let ghost given = self@;
        let keys = self.keys;
        let values = self.values;
        let mut out: Vec<(String, String)> = Vec::new();
        let mut i: usize = 0;
        proof {
            assert(pairs_of(out@) =~= given.take(0));
        }
        while i < keys.len()
            invariant
                i <= keys@.len(),
                keys@.len() == values@.len(),
                given == Seq::new(keys@.len(), |i: int| (keys@[i]@, values@[i]@)),
                pairs_of(out@) == given.take(i as int),
            decreases keys@.len() - i,
        {
            let ghost before = out@;
            let pair = (keys[i].clone(), values[i].clone());
            out.push(pair);
            proof {
                assert(pairs_of(out@) =~= pairs_of(before).push((pair.0@, pair.1@)));
                assert(given.take(i + 1) =~= given.take(i as int).push(given[i as int]));
            }
            i += 1;
        }
        proof {
            assert(given.take(given.len() as int) =~= given);
        }
        out
    }

    /// The object's text.
    pub fn text(&self) -> (r: String)
        requires
            self.wf(),
        ensures
            r@ == object(self@),
    {
        let ghost all = self@.map_values(|m: (Seq<char>, Seq<char>)| member(m.0, m.1));
        let mut parts: Vec<String> = Vec::new();
        let mut i: usize = 0;
        while i < self.keys.len()
            invariant
                i <= self.keys@.len(),
                self.wf(),
                all == self@.map_values(|m: (Seq<char>, Seq<char>)| member(m.0, m.1)),
                all.len() == self.keys@.len(),
                texts(parts@) == all.take(i as int),
            decreases self.keys@.len() - i,
        {
            let mut s = quote(self.keys[i].as_str());
            s.append(":");
            s.append(self.values[i].as_str());
            let ghost before = parts@;
            proof {
                assert(self@[i as int] == (self.keys@[i as int]@, self.values@[i as int]@));
                assert(s@ == all[i as int]);
            }
            parts.push(s);
            proof {
                assert(texts(parts@) =~= texts(before).push(all[i as int]));
                assert(all.take(i + 1) =~= all.take(i as int).push(all[i as int]));
            }
            i += 1;
        }
        proof {
            assert(all.take(all.len() as int) =~= all);
        }
        let mut r = "{".to_owned();
        r.append(join_texts(parts.as_slice(), ",").as_str());
        r.append("}");
        r
    }
}

/// A JSON array of the given texts.
pub fn array_text(items: &[String]) -> (r: String)
    ensures
        r@ == array(texts(items@)),
{
    let mut r = "[".to_owned();
    r.append(join_texts(items, ",").as_str());
    r.append("]");
    r
}

} // verus!
