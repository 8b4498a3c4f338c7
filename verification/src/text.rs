//! Text building blocks shared by the code generators: indentation, joining,
//! repetition and decimal rendering of integers.
use vstd::prelude::*;
use vstd::string::StrSliceExecFns;

verus! {

/// One level of indentation in generated code.
pub open spec fn indent_unit() -> Seq<char> {
    seq![' ', ' ', ' ', ' ']
}

/// `s` written `n` times in a row.
pub open spec fn repeat_seq(s: Seq<char>, n: nat) -> Seq<char>
    decreases n,
{
    if n == 0 {
        Seq::empty()
    } else {
        repeat_seq(s, (n - 1) as nat) + s
    }
}

/// The indentation prefix for nesting depth `indent`.
pub open spec fn indent_seq(indent: nat) -> Seq<char> {
    repeat_seq(indent_unit(), indent)
}

/// The parts joined by `sep`: `a`, `a sep b`, `a sep b sep c`, ...
pub open spec fn join_seqs(parts: Seq<Seq<char>>, sep: Seq<char>) -> Seq<char>
    decreases parts.len(),
{
    if parts.len() == 0 {
        Seq::empty()
    } else if parts.len() == 1 {
        parts[0]
    } else {
        join_seqs(parts.drop_last(), sep) + sep + parts.last()
    }
}

/// The character views of a sequence of strings.
pub open spec fn views(v: Seq<String>) -> Seq<Seq<char>> {
    v.map_values(|s: String| s@)
}

/// The decimal digit `d` (for `d < 10`).
pub open spec fn digit_char(d: nat) -> char {
    if d == 0 {
        '0'
    } else if d == 1 {
        '1'
    } else if d == 2 {
        '2'
    } else if d == 3 {
        '3'
    } else if d == 4 {
        '4'
    } else if d == 5 {
        '5'
    } else if d == 6 {
        '6'
    } else if d == 7 {
        '7'
    } else if d == 8 {
        '8'
    } else {
        '9'
    }
}

/// The decimal representation of `n`, without leading zeros.
pub open spec fn decimal(n: nat) -> Seq<char>
    decreases n,
{
    if n < 10 {
        seq![digit_char(n)]
    } else {
        decimal(n / 10).push(digit_char(n % 10))
    }
}

/// The decimal representation of a signed integer: a `-` before negative values.
pub open spec fn signed_decimal(i: int) -> Seq<char> {
    if i < 0 {
        seq!['-'] + decimal((-i) as nat)
    } else {
        decimal(i as nat)
    }
}

/// `String::push`: appends one character.
#[verifier::external_body]
pub(crate) fn push_char(s: &mut String, c: char)
    ensures
        final(s)@ == old(s)@.push(c),
{
    s.push(c);
}

/// A fresh copy of a string.
pub fn copy_string(s: &String) -> (r: String)
    ensures
        r@ == s@,
{
    s.clone()
}

/// An element-wise copy of a vector of strings.
pub fn copy_strings(v: &Vec<String>) -> (r: Vec<String>)
    ensures
        r@ == v@,
        views(r@) == views(v@),
{
    let mut r: Vec<String> = Vec::new();
    let mut i: usize = 0;
    while i < v.len()
        invariant
            i <= v.len(),
            r@ == v@.subrange(0, i as int),
        decreases v.len() - i,
    {
        r.push(v[i].clone());
        i = i + 1;
    }
    assert(r@ == v@);
    r
}

/// Concatenates the strings of `parts`, placing `sep` between neighbours.
pub fn join(parts: &Vec<String>, sep: &str) -> (r: String)
    ensures
        r@ == join_seqs(views(parts@), sep@),
{
    let ghost vs = views(parts@);
    let mut r = String::new();
    let mut i: usize = 0;
    while i < parts.len()
        invariant
            i <= parts.len(),
            vs == views(parts@),
            r@ == join_seqs(vs.subrange(0, i as int), sep@),
        decreases parts.len() - i,
    {
        assert(vs.subrange(0, i + 1).drop_last() == vs.subrange(0, i as int));
        if i > 0 {
            r.append(sep);
        }
        r.append(parts[i].as_str());
        i = i + 1;
    }
    assert(vs.subrange(0, parts.len() as int) == vs);
    r
}

/// `origin` written `repeat` times in a row.
pub fn repeat_string(origin: &str, repeat: usize) -> (r: String)
    ensures
        r@ == repeat_seq(origin@, repeat as nat),
{
    let mut r = String::new();
    let mut i: usize = 0;
    while i < repeat
        invariant
            i <= repeat,
            r@ == repeat_seq(origin@, i as nat),
        decreases repeat - i,
    {
        r.append(origin);
        i = i + 1;
    }
    r
}

/// The indentation prefix for nesting depth `indent`.
pub fn indent_literal(indent: usize) -> (r: String)
    ensures
        r@ == indent_seq(indent as nat),
{
    let unit = "    ";
    proof {
        reveal_strlit("    ");
        assert(unit@ =~= indent_unit());
    }
    repeat_string(unit, indent)
}

/// The digit character of `d < 10`.
fn digit(d: usize) -> (c: char)
    requires
        d < 10,
    ensures
        c == digit_char(d as nat),
{
    if d == 0 {
        '0'
    } else if d == 1 {
        '1'
    } else if d == 2 {
        '2'
    } else if d == 3 {
        '3'
    } else if d == 4 {
        '4'
    } else if d == 5 {
        '5'
    } else if d == 6 {
        '6'
    } else if d == 7 {
        '7'
    } else if d == 8 {
        '8'
    } else {
        '9'
    }
}

/// The decimal representation of an unsigned value.
pub fn u64_to_string(n: u64) -> (r: String)
    ensures
        r@ == decimal(n as nat),
    decreases n,
{
    if n < 10 {
        let mut r = String::new();
        push_char(&mut r, digit(n as usize));
        r
    } else {
        let mut r = u64_to_string(n / 10);
        push_char(&mut r, digit((n % 10) as usize));
        r
    }
}

/// The decimal representation of a `usize`.
pub fn usize_to_string(n: usize) -> (r: String)
    ensures
        r@ == decimal(n as nat),
{
    u64_to_string(n as u64)
}

/// The decimal representation of an `i32`, with a leading `-` when negative.
pub fn i32_to_string(i: i32) -> (r: String)
    ensures
        r@ == signed_decimal(i as int),
{
    if i < 0 {
        let magnitude: u64 = (0i64 - (i as i64)) as u64;
        let digits = u64_to_string(magnitude);
        let mut r = String::new();
        push_char(&mut r, '-');
        r.append(digits.as_str());
        r
    } else {
        u64_to_string(i as u64)
    }
}

/// `"true"` or `"false"`.
pub fn bool_to_string(b: bool) -> (r: String)
    ensures
        r@ == (if b { "true"@ } else { "false"@ }),
{
    if b {
        String::from_str("true")
    } else {
        String::from_str("false")
    }
}


/// Whether two texts are equal, character by character.
pub fn str_eq(a: &str, b: &str) -> (r: bool)
    ensures
        r == (a@ == b@),
{
    let n = a.unicode_len();
    let m = b.unicode_len();
    if n != m {
        return false;
    }
    let mut i: usize = 0;
    while i < n
        invariant
            i <= n,
            n == a@.len(),
            m == b@.len(),
            n == m,
            a@.subrange(0, i as int) == b@.subrange(0, i as int),
        decreases n - i,
    {
        if a.get_char(i) != b.get_char(i) {
            assert(a@[i as int] != b@[i as int]);
            return false;
        }
        assert(a@.subrange(0, i + 1) =~= a@.subrange(0, i as int).push(a@[i as int]));
        assert(b@.subrange(0, i + 1) =~= b@.subrange(0, i as int).push(b@[i as int]));
        i = i + 1;
    }
    assert(a@ =~= a@.subrange(0, n as int));
    assert(b@ =~= b@.subrange(0, n as int));
    true
}

/// A copy of an optional string.
pub fn copy_opt_string(s: &Option<String>) -> (r: Option<String>)
    ensures
        r == *s,
{
    match s {
        Some(v) => Some(v.clone()),
        None => None,
    }
}

/// The view of an optional string.
pub open spec fn opt_view(o: Option<String>) -> Option<Seq<char>> {
    match o {
        Some(s) => Some(s@),
        None => None,
    }
}

/// The view of an optional list of strings.
pub open spec fn opt_views(o: Option<Vec<String>>) -> Option<Seq<Seq<char>>> {
    match o {
        Some(v) => Some(views(v@)),
        None => None,
    }
}

/// A copy of an optional list of strings.
pub fn copy_opt_strings(o: &Option<Vec<String>>) -> (r: Option<Vec<String>>)
    ensures
        opt_views(r) == opt_views(*o),
{
    match o {
        Some(v) => Some(copy_strings(v)),
        None => None,
    }
}

/// A vector of strings from literals.
pub fn strings_of(parts: &[&str]) -> (r: Vec<String>)
    ensures
        r@.len() == parts@.len(),
        forall|i: int| 0 <= i < parts@.len() ==> #[trigger] r@[i]@ == parts@[i]@,
{
    let mut r: Vec<String> = Vec::new();
    let mut i: usize = 0;
    while i < parts.len()
        invariant
            i <= parts.len(),
            r@.len() == i,
            forall|j: int| 0 <= j < i ==> #[trigger] r@[j]@ == parts@[j]@,
        decreases parts.len() - i,
    {
        r.push(String::from_str(parts[i]));
        i = i + 1;
    }
    r
}

} // verus!

verus! {

/// `c` in upper case when it is an ASCII lower-case letter, else `c`.
pub open spec fn ascii_upper(c: char) -> char {
    if 'a' <= c && c <= 'z' {
        ((c as u32) - 32) as char
    } else {
        c
    }
}

/// `s` with each `_` dropped and the letter that starts each word in upper
/// case; `upper` tells whether the first character starts a word.
pub open spec fn camel_of(s: Seq<char>, upper: bool) -> Seq<char>
    decreases s.len(),
{
    if s.len() == 0 {
        Seq::empty()
    } else if s[0] == '_' {
        camel_of(s.drop_first(), true)
    } else if upper {
        seq![ascii_upper(s[0])] + camel_of(s.drop_first(), false)
    } else {
        seq![s[0]] + camel_of(s.drop_first(), false)
    }
}

/// The camel-case form holds no `_`.
pub proof fn lemma_camel_no_underscore(s: Seq<char>, upper: bool)
    ensures
        !camel_of(s, upper).contains('_'),
    decreases s.len(),
{
    if s.len() > 0 {
        lemma_camel_no_underscore(s.drop_first(), true);
        lemma_camel_no_underscore(s.drop_first(), false);
        if s[0] != '_' {
            let head = if upper { ascii_upper(s[0]) } else { s[0] };
            let rest = camel_of(s.drop_first(), false);
            assert(head != '_');
            assert(camel_of(s, upper) == seq![head] + rest);
            if (seq![head] + rest).contains('_') {
                let k = choose|k: int| 0 <= k < (seq![head] + rest).len() && (seq![head] + rest)[k] == '_';
                assert(rest[k - 1] == '_');
            }
        }
    }
}

/// The number of characters of `s` other than `_`.
pub open spec fn count_non_underscore(s: Seq<char>) -> nat
    decreases s.len(),
{
    if s.len() == 0 {
        0
    } else {
        count_non_underscore(s.drop_first()) + if s[0] == '_' {
            0nat
        } else {
            1nat
        }
    }
}

/// The camel-case form keeps every character but the `_`s.
pub proof fn lemma_camel_len(s: Seq<char>, upper: bool)
    ensures
        camel_of(s, upper).len() == count_non_underscore(s),
    decreases s.len(),
{
    if s.len() > 0 {
        lemma_camel_len(s.drop_first(), true);
        lemma_camel_len(s.drop_first(), false);
    }
}

/// Upper-casing an ASCII letter twice changes nothing more.
pub proof fn lemma_ascii_upper_idem(c: char)
    ensures
        ascii_upper(ascii_upper(c)) == ascii_upper(c),
{
    if 'a' <= c && c <= 'z' {
        let u = ((c as u32) - 32) as char;
        assert((u as u32) == (c as u32) - 32);
        assert(!('a' <= u && u <= 'z'));
    }
}

proof fn lemma_camel_plain(t: Seq<char>, upper: bool)
    requires
        !t.contains('_'),
    ensures
        camel_of(t, upper) == if t.len() > 0 && upper {
            seq![ascii_upper(t[0])] + t.drop_first()
        } else {
            t
        },
    decreases t.len(),
{
    if t.len() > 0 {
        assert(t[0] != '_') by {
            assert(t.contains(t[0]));
        }
        assert(!t.drop_first().contains('_')) by {
            if t.drop_first().contains('_') {
                let k = choose|k: int| 0 <= k < t.drop_first().len() && t.drop_first()[k] == '_';
                assert(t[k + 1] == '_');
            }
        }
        lemma_camel_plain(t.drop_first(), false);
        assert(seq![t[0]] + t.drop_first() =~= t);
    }
}

proof fn lemma_camel_head(s: Seq<char>)
    ensures
        camel_of(s, true).len() > 0 ==> ascii_upper(camel_of(s, true)[0]) == camel_of(s, true)[0],
    decreases s.len(),
{
    if s.len() > 0 {
        if s[0] == '_' {
            lemma_camel_head(s.drop_first());
        } else {
            lemma_ascii_upper_idem(s[0]);
        }
    }
}

/// Turning a name into camel case twice gives what doing it once gives.
pub proof fn lemma_camel_idempotent(s: Seq<char>)
    ensures
        camel_of(camel_of(s, true), true) == camel_of(s, true),
{
    let r = camel_of(s, true);
    lemma_camel_no_underscore(s, true);
    lemma_camel_plain(r, true);
    lemma_camel_head(s);
    if r.len() > 0 {
        assert(seq![r[0]] + r.drop_first() =~= r);
    }
}

/// The words of `s` between its `_`s, empty words included: `a__b` has the
/// words `a`, `` and `b`.
pub open spec fn underscore_words(s: Seq<char>) -> Seq<Seq<char>>
    decreases s.len(),
{
    if s.len() == 0 {
        seq![Seq::empty()]
    } else if s[0] == '_' {
        seq![Seq::<char>::empty()] + underscore_words(s.drop_first())
    } else {
        let w = underscore_words(s.drop_first());
        w.update(0, seq![s[0]] + w[0])
    }
}

/// `w` with its first character upper-cased when it is an ASCII letter.
pub open spec fn capitalized(w: Seq<char>) -> Seq<char> {
    if w.len() == 0 {
        w
    } else {
        seq![ascii_upper(w[0])] + w.drop_first()
    }
}

/// The words, each capitalised, one after another.
pub open spec fn join_capitalized(ws: Seq<Seq<char>>) -> Seq<char>
    decreases ws.len(),
{
    if ws.len() == 0 {
        Seq::empty()
    } else {
        capitalized(ws[0]) + join_capitalized(ws.drop_first())
    }
}

proof fn lemma_words_nonempty(s: Seq<char>)
    ensures
        underscore_words(s).len() > 0,
    decreases s.len(),
{
    if s.len() > 0 {
        lemma_words_nonempty(s.drop_first());
    }
}

proof fn lemma_camel_words(s: Seq<char>, upper: bool)
    ensures
        camel_of(s, upper) == if upper {
            join_capitalized(underscore_words(s))
        } else {
            underscore_words(s)[0] + join_capitalized(underscore_words(s).drop_first())
        },
    decreases s.len(),
{
    let ws = underscore_words(s);
    if s.len() == 0 {
        assert(ws.drop_first() =~= Seq::<Seq<char>>::empty());
        assert(join_capitalized(ws) == capitalized(ws[0]) + join_capitalized(ws.drop_first()));
    } else if s[0] == '_' {
        lemma_camel_words(s.drop_first(), true);
        assert(ws.drop_first() =~= underscore_words(s.drop_first()));
        assert(join_capitalized(ws) == capitalized(ws[0]) + join_capitalized(ws.drop_first()));
        assert(capitalized(ws[0]) =~= Seq::<char>::empty());
        assert(Seq::<char>::empty() + join_capitalized(ws.drop_first()) =~= join_capitalized(ws.drop_first()));
        assert(ws[0] + join_capitalized(ws.drop_first()) =~= join_capitalized(ws.drop_first()));
    } else {
        let w = underscore_words(s.drop_first());
        lemma_words_nonempty(s.drop_first());
        lemma_camel_words(s.drop_first(), false);
        assert(ws.drop_first() =~= w.drop_first());
        assert(ws[0] == seq![s[0]] + w[0]);
        if upper {
            assert(join_capitalized(ws) == capitalized(ws[0]) + join_capitalized(ws.drop_first()));
            assert(capitalized(ws[0]) =~= seq![ascii_upper(s[0])] + w[0]);
            assert(camel_of(s, upper) == seq![ascii_upper(s[0])] + camel_of(s.drop_first(), false));
            assert(seq![ascii_upper(s[0])] + (w[0] + join_capitalized(w.drop_first())) =~= (seq![ascii_upper(s[0])] + w[0])
                + join_capitalized(w.drop_first()));
        } else {
            assert(seq![s[0]] + (w[0] + join_capitalized(w.drop_first())) =~= (seq![s[0]] + w[0]) + join_capitalized(
                w.drop_first(),
            ));
        }
    }
}

/// The camel-case form of `s` is its words between `_`s, each with its first
/// character upper-cased, one after another.
pub proof fn lemma_camel_split(s: Seq<char>)
    ensures
        camel_of(s, true) == join_capitalized(underscore_words(s)),
{
    lemma_camel_words(s, true);
}

/// `c` in upper case when it is an ASCII lower-case letter.
fn to_ascii_upper(c: char) -> (r: char)
    ensures
        r == ascii_upper(c),
{
    if 'a' <= c && c <= 'z' {
        let u: u32 = (c as u32) - 32;
        assert(u < 128);
        (u as u8) as char
    } else {
        c
    }
}

/// The camel-case form of a snake-case name: `foo_bar` gives `FooBar`.
pub fn snake_to_camel(s: &str) -> (r: String)
    ensures
        r@ == camel_of(s@, true),
        !r@.contains('_'),
        r@.len() == count_non_underscore(s@),
{
    proof {
        lemma_camel_no_underscore(s@, true);
        lemma_camel_len(s@, true);
    }
    let n = s.unicode_len();
    let mut r = String::new();
    let mut upper = true;
    let mut i: usize = 0;
    assert(s@.subrange(0, n as int) =~= s@);
    assert(r@ + camel_of(s@, true) =~= camel_of(s@, true));
    while i < n
        invariant
            n == s@.len(),
            i <= n,
            camel_of(s@, true) == r@ + camel_of(s@.subrange(i as int, n as int), upper),
        decreases n - i,
    {
        let c = s.get_char(i);
        let ghost rest = s@.subrange(i as int, n as int);
        assert(rest[0] == c);
        assert(rest.drop_first() =~= s@.subrange(i + 1, n as int));
        if c == '_' {
            upper = true;
        } else if upper {
            push_char(&mut r, to_ascii_upper(c));
            upper = false;
        } else {
            push_char(&mut r, c);
        }
        i = i + 1;
    }
    assert(s@.subrange(n as int, n as int) =~= Seq::<char>::empty());
    r
}

} // verus!
