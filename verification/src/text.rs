//! Character and string utilities shared by the scanner, the search
//! engine and the file-operation planner: ASCII case folding, the
//! case-insensitive lexicographic order that the directory sort uses,
//! substring matching, and decimal rendering of counters.
use vstd::prelude::*;

verus! {

/// ASCII case folding of one character: `A`..`Z` map to `a`..`z`,
/// every other character is unchanged.
pub open spec fn lower_char(c: char) -> char {
    if 'A' <= c && c <= 'Z' {
        ((c as u8) + 32) as char
    } else {
        c
    }
}

/// ASCII case folding of a character sequence.
pub open spec fn lower(s: Seq<char>) -> Seq<char> {
    s.map_values(|c: char| lower_char(c))
}

/// Folds one character to lower case.
pub fn lower_char_exec(c: char) -> (r: char)
    ensures
        r == lower_char(c),
{
    if 'A' <= c && c <= 'Z' {
        ((c as u8) + 32) as char
    } else {
        c
    }
}

/// Collects the characters of a string slice into a vector.
pub fn str_to_chars(s: &str) -> (v: Vec<char>)
    ensures
        v@ == s@,
{
    let n = s.unicode_len();
    let mut v: Vec<char> = Vec::new();
    let mut i: usize = 0;
    while i < n
        invariant
            i <= n,
            n == s@.len(),
            v@ == s@.subrange(0, i as int),
        decreases n - i,
    {
        v.push(s.get_char(i));
        i += 1;
        proof {
            assert(v@ =~= s@.subrange(0, i as int));
        }
    }
    proof {
        assert(v@ =~= s@);
    }
    v
}

/// Folds a whole string to lower case, character by character.
pub fn lower_chars(s: &str) -> (v: Vec<char>)
    ensures
        v@ == lower(s@),
{
    let chars = str_to_chars(s);
    let mut v: Vec<char> = Vec::new();
    let mut i: usize = 0;
    while i < chars.len()
        invariant
            i <= chars@.len(),
            chars@ == s@,
            v@ == lower(s@.subrange(0, i as int)),
        decreases chars@.len() - i,
    {
        v.push(lower_char_exec(chars[i]));
        i += 1;
        proof {
            assert(v@ =~= lower(s@.subrange(0, i as int)));
        }
    }
    proof {
        assert(v@ =~= lower(s@));
    }
    v
}

/// Folds a character vector to lower case.
pub fn lower_vec(v: &Vec<char>) -> (r: Vec<char>)
    ensures
        r@ == lower(v@),
{
    let mut r: Vec<char> = Vec::new();
    let mut i: usize = 0;
    while i < v.len()
        invariant
            i <= v@.len(),
            r@ == lower(v@.subrange(0, i as int)),
        decreases v@.len() - i,
    {
        r.push(lower_char_exec(v[i]));
        i += 1;
        proof {
            assert(r@ =~= lower(v@.subrange(0, i as int)));
        }
    }
    proof {
        assert(r@ =~= lower(v@));
    }
    r
}

/// Lexicographic order on character sequences, by Unicode scalar value.
/// The empty sequence comes first; otherwise the first differing
/// character decides.
pub open spec fn lex_le(a: Seq<char>, b: Seq<char>) -> bool
    decreases a.len(),
{
    if a.len() == 0 {
        true
    } else if b.len() == 0 {
        false
    } else if a[0] != b[0] {
        (a[0] as u32) < (b[0] as u32)
    } else {
        lex_le(a.skip(1), b.skip(1))
    }
}

/// `lex_le` relates every pair of sequences one way or the other.
pub proof fn lemma_lex_le_total(a: Seq<char>, b: Seq<char>)
    ensures
        lex_le(a, b) || lex_le(b, a),
    decreases a.len(),
{
    if a.len() == 0 || b.len() == 0 {
    } else if a[0] != b[0] {
        if (a[0] as u32) == (b[0] as u32) {
            vstd::utf8::char_u32_cast(a[0], a[0] as u32);
            vstd::utf8::char_u32_cast(b[0], b[0] as u32);
        }
    } else {
        lemma_lex_le_total(a.skip(1), b.skip(1));
    }
}

/// `lex_le` is transitive.
pub proof fn lemma_lex_le_transitive(a: Seq<char>, b: Seq<char>, c: Seq<char>)
    requires
        lex_le(a, b),
        lex_le(b, c),
    ensures
        lex_le(a, c),
    decreases a.len(),
{
    if a.len() == 0 {
    } else {
        assert(b.len() > 0);
        if b.len() > 0 && c.len() > 0 {
            if a[0] == b[0] && b[0] == c[0] {
                lemma_lex_le_transitive(a.skip(1), b.skip(1), c.skip(1));
            }
        }
    }
}

/// Compares two character vectors in the order of `lex_le`.
pub fn lex_le_exec(a: &Vec<char>, b: &Vec<char>) -> (r: bool)
    ensures
        r == lex_le(a@, b@),
{
    let mut i: usize = 0;
    proof {
        assert(a@.skip(0) =~= a@);
        assert(b@.skip(0) =~= b@);
    }
    loop
        invariant
            i <= a@.len(),
            i <= b@.len(),
            a@.subrange(0, i as int) =~= b@.subrange(0, i as int),
            lex_le(a@, b@) == lex_le(a@.skip(i as int), b@.skip(i as int)),
        decreases a@.len() - i,
    {
        if i >= a.len() {
            proof {
                assert(a@.skip(i as int).len() == 0);
            }
            return true;
        }
        if i >= b.len() {
            proof {
                assert(b@.skip(i as int).len() == 0);
                assert(a@.skip(i as int).len() > 0);
            }
            return false;
        }
        let ca = a[i];
        let cb = b[i];
        proof {
            assert(a@.skip(i as int)[0] == a@[i as int]);
            assert(b@.skip(i as int)[0] == b@[i as int]);
        }
        if ca != cb {
            return (ca as u32) < (cb as u32);
        }
        proof {
            assert(a@.skip(i as int).skip(1) =~= a@.skip(i as int + 1));
            assert(b@.skip(i as int).skip(1) =~= b@.skip(i as int + 1));
            assert(a@.subrange(0, i as int + 1) =~= b@.subrange(0, i as int + 1));
        }
        i += 1;
    }
}

/// Whether `needle` occurs as a contiguous run inside `hay`.
pub open spec fn contains_seq(hay: Seq<char>, needle: Seq<char>) -> bool {
    exists|i: int|
        0 <= i && i + needle.len() <= hay.len() && #[trigger] hay.subrange(i, i + needle.len())
            == needle
}

/// Tests whether the characters of `needle` occur contiguously in `hay`.
/// An empty needle is found everywhere.
pub fn contains_exec(hay: &Vec<char>, needle: &Vec<char>) -> (r: bool)
    ensures
        r == contains_seq(hay@, needle@),
{
    if needle.len() > hay.len() {
        proof {
            assert(!contains_seq(hay@, needle@));
        }
        return false;
    }
    let hn = hay.len();
    let nn = needle.len();
    let last = hn - nn;
    let mut i: usize = 0;
    while i <= last
        invariant
            hn == hay@.len(),
            nn == needle@.len(),
            needle@.len() <= hay@.len(),
            last == hn - nn,
            i <= last + 1,
            forall|k: int|
                0 <= k < i ==> #[trigger] hay@.subrange(k, k + needle@.len()) != needle@,
        decreases last + 1 - i,
    {
        let mut j: usize = 0;
        let mut matched = true;
        while j < needle.len() && matched
            invariant
                hn == hay@.len(),
                nn == needle@.len(),
                needle@.len() <= hay@.len(),
                i + needle@.len() <= hay@.len(),
                j <= needle@.len(),
                matched ==> hay@.subrange(i as int, i as int + j as int) =~= needle@.subrange(
                    0,
                    j as int,
                ),
                !matched ==> hay@.subrange(i as int, i as int + needle@.len()) != needle@,
            decreases needle@.len() - j,
        {
            if hay[i + j] != needle[j] {
                matched = false;
                proof {
                    assert(hay@.subrange(i as int, i as int + needle@.len())[j as int] == hay@[i
                        as int + j as int]);
                }
            } else {
                proof {
                    assert(hay@.subrange(i as int, i as int + j as int + 1) =~= hay@.subrange(
                        i as int,
                        i as int + j as int,
                    ).push(hay@[i as int + j as int]));
                    assert(needle@.subrange(0, j as int + 1) =~= needle@.subrange(0, j as int).push(
                        needle@[j as int],
                    ));
                }
            }
            j += 1;
        }
        if matched {
            proof {
                assert(j == needle@.len());
                assert(needle@.subrange(0, needle@.len() as int) =~= needle@);
                assert(hay@.subrange(i as int, i as int + needle@.len()) == needle@);
            }
            return true;
        }
        proof {
            if nn == 0 {
                assert(hay@.subrange(i as int, i as int + needle@.len()) =~= needle@);
            }
        }
        i += 1;
    }
    proof {
        assert forall|k: int| 0 <= k && k + needle@.len() <= hay@.len() implies #[trigger] hay@
            .subrange(k, k + needle@.len()) != needle@ by {
            assert(k < i);
        }
    }
    false
}

/// Tests whether `p` is a prefix of `s`.
pub fn starts_with_exec(s: &Vec<char>, p: &Vec<char>) -> (r: bool)
    ensures
        r == p@.is_prefix_of(s@),
{
    if p.len() > s.len() {
        return false;
    }
    let mut j: usize = 0;
    while j < p.len()
        invariant
            p@.len() <= s@.len(),
            j <= p@.len(),
            forall|k: int| 0 <= k < j ==> s@[k] == p@[k],
        decreases p@.len() - j,
    {
        if s[j] != p[j] {
            proof {
                assert(s@.subrange(0, p@.len() as int)[j as int] != p@[j as int]);
            }
            return false;
        }
        j += 1;
    }
    proof {
        assert(s@.subrange(0, p@.len() as int) =~= p@);
    }
    true
}

/// Compares a character vector with a string slice.
pub fn chars_eq_str(v: &Vec<char>, s: &str) -> (r: bool)
    ensures
        r == (v@ == s@),
{
    let n = s.unicode_len();
    if v.len() != n {
        proof {
            assert(v@ != s@);
        }
        return false;
    }
    let mut i: usize = 0;
    while i < n
        invariant
            i <= n,
            n == s@.len(),
            n == v@.len(),
            forall|k: int| 0 <= k < i ==> v@[k] == s@[k],
        decreases n - i,
    {
        if v[i] != s.get_char(i) {
            return false;
        }
        i += 1;
    }
    proof {
        assert(v@ =~= s@);
    }
    true
}

/// The suffix of `name` after its last `.`; the whole of `name` when it
/// has none. This is the extension field that icon choice goes by.
pub open spec fn ext_of(name: Seq<char>) -> Seq<char>
    decreases name.len(),
{
    if name.len() == 0 {
        name
    } else if name.last() == '.' {
        Seq::empty()
    } else {
        ext_of(name.drop_last()).push(name.last())
    }
}

/// Characterizes `ext_of` as a suffix: when no `.` occurs at or after
/// position `i`, and position `i` is the start or preceded by a `.`,
/// the extension is exactly the suffix from `i`.
pub proof fn lemma_ext_of_suffix(s: Seq<char>, i: int)
    requires
        0 <= i <= s.len(),
        forall|k: int| i <= k < s.len() ==> s[k] != '.',
        i > 0 ==> s[i - 1] == '.',
    ensures
        ext_of(s) == s.skip(i),
    decreases s.len(),
{
    if i == s.len() {
        if i > 0 {
            assert(s.last() == '.');
            assert(ext_of(s) =~= s.skip(i));
        } else {
            assert(s.len() == 0);
            assert(ext_of(s) =~= s.skip(i));
        }
    } else {
        assert(s.last() != '.');
        lemma_ext_of_suffix(s.drop_last(), i);
        assert(ext_of(s) == ext_of(s.drop_last()).push(s.last()));
        assert(s.drop_last().skip(i).push(s.last()) =~= s.skip(i));
    }
}

/// Extracts the extension of a name: the characters after the last `.`,
/// or all of them when there is no `.`.
pub fn ext_of_exec(name: &Vec<char>) -> (r: Vec<char>)
    ensures
        r@ == ext_of(name@),
{
    let n = name.len();
    let mut i: usize = n;
    while i > 0 && name[i - 1] != '.'
        invariant
            i <= n,
            n == name@.len(),
            forall|k: int| i <= k < n ==> name@[k] != '.',
        decreases i,
    {
        i -= 1;
    }
    proof {
        lemma_ext_of_suffix(name@, i as int);
    }
    let mut r: Vec<char> = Vec::new();
    let mut j: usize = i;
    while j < n
        invariant
            i <= j <= n,
            n == name@.len(),
            r@ == name@.subrange(i as int, j as int),
        decreases n - j,
    {
        r.push(name[j]);
        j += 1;
        proof {
            assert(r@ =~= name@.subrange(i as int, j as int));
        }
    }
    proof {
        assert(name@.subrange(i as int, n as int) =~= name@.skip(i as int));
    }
    r
}

/// The character for one decimal digit.
pub open spec fn digit_char(d: nat) -> char {
    if d == 0 {
        '0'
    } else if d == 1 {
        '1'
    } else if d == 2 {
        '2'
    } else if d == 3 {
        '3'
    } else if d == 4 {
        '4'
    } else if d == 5 {
        '5'
    } else if d == 6 {
        '6'
    } else if d == 7 {
        '7'
    } else if d == 8 {
        '8'
    } else {
        '9'
    }
}

/// The decimal representation of a number, most significant digit first,
/// with no leading zeroes (a single `0` for zero).
pub open spec fn dec_rep(n: nat) -> Seq<char>
    decreases n,
{
    if n < 10 {
        seq![digit_char(n)]
    } else {
        dec_rep(n / 10).push(digit_char(n % 10))
    }
}

/// A decimal representation is never empty, and has at least two digits
/// from ten upward.
pub proof fn lemma_dec_rep_len(n: nat)
    ensures
        dec_rep(n).len() >= 1,
        n >= 10 ==> dec_rep(n).len() >= 2,
    decreases n,
{
    if n >= 10 {
        lemma_dec_rep_len(n / 10);
    }
}

/// Distinct digits render as distinct characters.
pub proof fn lemma_digit_char_injective(x: nat, y: nat)
    requires
        x < 10,
        y < 10,
        digit_char(x) == digit_char(y),
    ensures
        x == y,
{
}

/// Distinct numbers have distinct decimal representations.
pub proof fn lemma_dec_rep_injective(a: nat, b: nat)
    requires
        dec_rep(a) == dec_rep(b),
    ensures
        a == b,
    decreases a,
{
    lemma_dec_rep_len(a);
    lemma_dec_rep_len(b);
    if a < 10 && b < 10 {
        assert(dec_rep(a)[0] == digit_char(a));
        assert(dec_rep(b)[0] == digit_char(b));
        lemma_digit_char_injective(a, b);
    } else if a < 10 {
        assert(dec_rep(a).len() == 1);
        assert(dec_rep(b).len() >= 2);
    } else if b < 10 {
        assert(dec_rep(a).len() >= 2);
        assert(dec_rep(b).len() == 1);
    } else {
        assert(dec_rep(a).last() == digit_char(a % 10));
        assert(dec_rep(b).last() == digit_char(b % 10));
        lemma_digit_char_injective(a % 10, b % 10);
        assert(dec_rep(a).drop_last() =~= dec_rep(a / 10));
        assert(dec_rep(b).drop_last() =~= dec_rep(b / 10));
        lemma_dec_rep_injective(a / 10, b / 10);
    }
}

/// Renders one decimal digit.
pub fn digit_char_exec(d: u64) -> (c: char)
    requires
        d < 10,
    ensures
        c == digit_char(d as nat),
{
    if d == 0 {
        '0'
    } else if d == 1 {
        '1'
    } else if d == 2 {
        '2'
    } else if d == 3 {
        '3'
    } else if d == 4 {
        '4'
    } else if d == 5 {
        '5'
    } else if d == 6 {
        '6'
    } else if d == 7 {
        '7'
    } else if d == 8 {
        '8'
    } else {
        '9'
    }
}

/// Renders a number in decimal.
pub fn u64_to_chars(n: u64) -> (v: Vec<char>)
    ensures
        v@ == dec_rep(n as nat),
    decreases n,
{
    if n < 10 {
        let mut v: Vec<char> = Vec::new();
        v.push(digit_char_exec(n));
        proof {
            assert(v@ =~= dec_rep(n as nat));
        }
        v
    } else {
        let mut v = u64_to_chars(n / 10);
        v.push(digit_char_exec(n % 10));
        v
    }
}

/// Relies on `String::push`: appends exactly the given character.
#[verifier::external_body]
pub fn push_char(s: &mut String, c: char)
    ensures
        final(s)@ == old(s)@.push(c),
{
    s.push(c);
}

/// Builds a string out of a character vector.
pub fn chars_to_string(v: &Vec<char>) -> (s: String)
    ensures
        s@ == v@,
{
    let mut s = String::new();
    let mut i: usize = 0;
    while i < v.len()
        invariant
            i <= v@.len(),
            s@ == v@.subrange(0, i as int),
        decreases v@.len() - i,
    {
        push_char(&mut s, v[i]);
        i += 1;
        proof {
            assert(s@ =~= v@.subrange(0, i as int));
        }
    }
    proof {
        assert(s@ =~= v@);
    }
    s
}

/// Renders a number as a decimal string.
pub fn u64_to_string(n: u64) -> (s: String)
    ensures
        s@ == dec_rep(n as nat),
{
    let v = u64_to_chars(n);
    chars_to_string(&v)
}

/// Whitespace for field splitting: the blank and the tab.
pub open spec fn is_space(c: char) -> bool {
    c == ' ' || c == '\t'
}

/// The length of the longest non-space prefix.
pub open spec fn word_len(s: Seq<char>) -> nat
    decreases s.len(),
{
    if s.len() == 0 || is_space(s.first()) {
        0
    } else {
        1 + word_len(s.drop_first())
    }
}

/// When the first `j` characters are non-spaces and position `j` is a
/// space or the end, the first word is exactly `j` long.
pub proof fn lemma_word_len_at(s: Seq<char>, j: int)
    requires
        0 <= j <= s.len(),
        forall|k: int| 0 <= k < j ==> !is_space(s[k]),
        j < s.len() ==> is_space(s[j]),
    ensures
        word_len(s) == j,
    decreases s.len(),
{
    if s.len() == 0 {
    } else if j == 0 {
    } else {
        assert(!is_space(s.first()));
        lemma_word_len_at(s.drop_first(), j - 1);
    }
}

/// The whitespace-separated fields of a line, in order, each non-empty.
pub open spec fn fields_of(s: Seq<char>) -> Seq<Seq<char>>
    decreases s.len(),
    via fields_of_decreases
{
    if s.len() == 0 {
        Seq::empty()
    } else if is_space(s.first()) {
        fields_of(s.drop_first())
    } else {
        seq![s.take(word_len(s) as int)] + fields_of(s.skip(word_len(s) as int))
    }
}

/// The first word of a line is at least one and at most all of it.
pub proof fn lemma_word_len_bounds(s: Seq<char>)
    ensures
        word_len(s) <= s.len(),
        s.len() > 0 && !is_space(s.first()) ==> word_len(s) >= 1,
    decreases s.len(),
{
    if s.len() > 0 {
        lemma_word_len_bounds(s.drop_first());
    }
}

#[via_fn]
proof fn fields_of_decreases(s: Seq<char>) {
    lemma_word_len_bounds(s);
}

/// Skipping one leading space leaves the fields unchanged.
proof fn lemma_fields_skip_space(s: Seq<char>, i: int)
    requires
        0 <= i < s.len(),
        is_space(s[i]),
    ensures
        fields_of(s.skip(i)) == fields_of(s.skip(i + 1)),
{
    assert(s.skip(i).first() == s[i]);
    assert(s.skip(i).drop_first() =~= s.skip(i + 1));
}

/// A word from `i` to `j` is the next field, and the rest follow it.
proof fn lemma_fields_word(s: Seq<char>, i: int, j: int)
    requires
        0 <= i < j <= s.len(),
        forall|k: int| i <= k < j ==> !is_space(s[k]),
        j < s.len() ==> is_space(s[j]),
    ensures
        fields_of(s.skip(i)) == seq![s.subrange(i, j)] + fields_of(s.skip(j)),
{
    let t = s.skip(i);
    assert(!is_space(t.first()));
    assert forall|k: int| 0 <= k < j - i implies !is_space(t[k]) by {
        assert(t[k] == s[i + k]);
    }
    if j - i < t.len() {
        assert(t[j - i] == s[j]);
    }
    lemma_word_len_at(t, j - i);
    assert(t.take(j - i) =~= s.subrange(i, j));
    assert(t.skip(j - i) =~= s.skip(j));
}

/// Splits a line into its whitespace-separated fields.
pub fn fields_exec(s: &Vec<char>) -> (r: Vec<Vec<char>>)
    ensures
        r.deep_view() == fields_of(s@),
{
    let n = s.len();
    let mut r: Vec<Vec<char>> = Vec::new();
    let mut i: usize = 0;
    proof {
        assert(s@.skip(0) =~= s@);
        assert(r.deep_view() + fields_of(s@.skip(0)) =~= fields_of(s@));
    }
    while i < n
        invariant
            i <= n,
            n == s@.len(),
            fields_of(s@) == r.deep_view() + fields_of(s@.skip(i as int)),
        decreases n - i,
    {
        let c = s[i];
        if c == ' ' || c == '\t' {
            proof {
                lemma_fields_skip_space(s@, i as int);
            }
            i += 1;
        } else {
            let start = i;
            let mut w: Vec<char> = Vec::new();
            while i < n && s[i] != ' ' && s[i] != '\t'
                invariant
                    start <= i <= n,
                    n == s@.len(),
                    forall|k: int| start <= k < i ==> !is_space(s@[k]),
                    w@ == s@.subrange(start as int, i as int),
                decreases n - i,
            {
                w.push(s[i]);
                i += 1;
                proof {
                    assert(w@ =~= s@.subrange(start as int, i as int));
                }
            }
            proof {
                lemma_fields_word(s@, start as int, i as int);
            }
            let ghost r_before = r.deep_view();
            r.push(w);
            proof {
                assert(r.deep_view() =~~= r_before.push(w@));
                assert(r.deep_view() + fields_of(s@.skip(i as int)) =~~= fields_of(s@));
            }
        }
    }
    proof {
        assert(s@.skip(n as int) =~= Seq::<char>::empty());
        assert(fields_of(Seq::<char>::empty()) =~= Seq::<Seq<char>>::empty());
        assert(r.deep_view() =~~= fields_of(s@));
    }
    r
}

/// The position of the first occurrence of `c`, if any.
pub open spec fn first_index_of(s: Seq<char>, c: char) -> Option<int>
    decreases s.len(),
{
    if s.len() == 0 {
        Option::None
    } else if s.first() == c {
        Option::Some(0)
    } else {
        match first_index_of(s.drop_first(), c) {
            Option::None => Option::None,
            Option::Some(k) => Option::Some(k + 1),
        }
    }
}

/// When no `c` occurs before `d` and one stands at `d`, it is the first.
pub proof fn lemma_first_index_at(s: Seq<char>, c: char, d: int)
    requires
        0 <= d < s.len(),
        s[d] == c,
        forall|k: int| 0 <= k < d ==> s[k] != c,
    ensures
        first_index_of(s, c) == Option::Some(d),
    decreases s.len(),
{
    if d > 0 {
        lemma_first_index_at(s.drop_first(), c, d - 1);
    }
}

/// When `c` occurs nowhere, there is no first occurrence.
pub proof fn lemma_first_index_none(s: Seq<char>, c: char)
    requires
        forall|k: int| 0 <= k < s.len() ==> s[k] != c,
    ensures
        first_index_of(s, c) is None,
    decreases s.len(),
{
    if s.len() > 0 {
        lemma_first_index_none(s.drop_first(), c);
    }
}

/// Splits at the first occurrence of `c`: what precedes it and what
/// follows it, the separator dropped; nothing when `c` does not occur.
pub fn split_once_char(s: &Vec<char>, c: char) -> (r: Option<(Vec<char>, Vec<char>)>)
    ensures
        match r {
            Some(p) => first_index_of(s@, c) == Option::Some(p.0@.len() as int) && p.0@ == s@
                .subrange(0, p.0@.len() as int) && p.1@ == s@.skip(p.0@.len() as int + 1),
            None => first_index_of(s@, c) is None,
        },
{
    let n = s.len();
    let mut d: usize = 0;
    while d < n && s[d] != c
        invariant
            d <= n,
            n == s@.len(),
            forall|k: int| 0 <= k < d ==> s@[k] != c,
        decreases n - d,
    {
        d += 1;
    }
    if d == n {
        proof {
            lemma_first_index_none(s@, c);
        }
        return None;
    }
    proof {
        lemma_first_index_at(s@, c, d as int);
    }
    let mut left: Vec<char> = Vec::new();
    let mut i: usize = 0;
    while i < d
        invariant
            i <= d <= n,
            n == s@.len(),
            left@ == s@.subrange(0, i as int),
        decreases d - i,
    {
        left.push(s[i]);
        i += 1;
        proof {
            assert(left@ =~= s@.subrange(0, i as int));
        }
    }
    let mut right: Vec<char> = Vec::new();
    let mut j: usize = d + 1;
    while j < n
        invariant
            d + 1 <= j <= n,
            n == s@.len(),
            right@ == s@.subrange(d as int + 1, j as int),
        decreases n - j,
    {
        right.push(s[j]);
        j += 1;
        proof {
            assert(right@ =~= s@.subrange(d as int + 1, j as int));
        }
    }
    proof {
        assert(right@ =~= s@.skip(d as int + 1));
    }
    Some((left, right))
}

/// A first occurrence lies in the string, holds `c`, and nothing before
/// it does.
pub proof fn lemma_first_index_bounds(s: Seq<char>, c: char)
    ensures
        match first_index_of(s, c) {
            Option::Some(k) => 0 <= k < s.len() && s[k] == c && (forall|j: int|
                0 <= j < k ==> s[j] != c),
            Option::None => forall|j: int| 0 <= j < s.len() ==> s[j] != c,
        },
    decreases s.len(),
{
    if s.len() > 0 {
        lemma_first_index_bounds(s.drop_first(), c);
        if s.first() != c {
            match first_index_of(s.drop_first(), c) {
                Option::Some(k) => {
                    assert(s[k + 1] == s.drop_first()[k]);
                    assert forall|j: int| 0 <= j < k + 1 implies s[j] != c by {
                        if j > 0 {
                            assert(s[j] == s.drop_first()[j - 1]);
                        }
                    }
                },
                Option::None => {
                    assert forall|j: int| 0 <= j < s.len() implies s[j] != c by {
                        if j > 0 {
                            assert(s[j] == s.drop_first()[j - 1]);
                        }
                    }
                },
            }
        }
    }
}

/// The pieces of `s` split at every occurrence of `c`; empty pieces are
/// kept, and a string without `c` is one piece.
pub open spec fn split_all(s: Seq<char>, c: char) -> Seq<Seq<char>>
    decreases s.len(),
    via split_all_decreases
{
    match first_index_of(s, c) {
        Option::None => seq![s],
        Option::Some(k) => seq![s.subrange(0, k)] + split_all(s.skip(k + 1), c),
    }
}

#[via_fn]
proof fn split_all_decreases(s: Seq<char>, c: char) {
    lemma_first_index_bounds(s, c);
}

/// Splits at every occurrence of `c`.
pub fn split_all_char(s: &Vec<char>, c: char) -> (r: Vec<Vec<char>>)
    ensures
        r.deep_view() == split_all(s@, c),
    decreases s@.len(),
{
    match split_once_char(s, c) {
        None => {
            let mut out: Vec<Vec<char>> = Vec::new();
            let mut copy: Vec<char> = Vec::new();
            crate::file_ops::append_chars(&mut copy, s);
            proof {
                assert(copy@ =~= s@);
            }
            out.push(copy);
            proof {
                assert(out.deep_view() =~~= split_all(s@, c));
            }
            out
        },
        Some((left, right)) => {
            proof {
                lemma_first_index_bounds(s@, c);
                assert(right@.len() < s@.len());
            }
            let rest = split_all_char(&right, c);
            let mut out: Vec<Vec<char>> = Vec::new();
            out.push(left);
            let mut i: usize = 0;
            while i < rest.len()
                invariant
                    i <= rest@.len(),
                    out@.len() == i + 1,
                    out.deep_view()[0] == left@,
                    forall|k: int| 0 <= k < i ==> out.deep_view()[k + 1] == rest.deep_view()[k],
                decreases rest@.len() - i,
            {
                let mut piece: Vec<char> = Vec::new();
                crate::file_ops::append_chars(&mut piece, &rest[i]);
                proof {
                    assert(piece@ =~= rest@[i as int]@);
                }
                out.push(piece);
                i += 1;
            }
            proof {
                assert(out.deep_view() =~~= seq![left@] + rest.deep_view());
                assert(out.deep_view() =~~= split_all(s@, c));
            }
            out
        },
    }
}

/// Whether every character is a decimal digit.
pub open spec fn all_digits(s: Seq<char>) -> bool {
    forall|k: int| 0 <= k < s.len() ==> '0' <= #[trigger] s[k] && s[k] <= '9'
}

/// The numeric value of one digit character.
pub open spec fn digit_val(c: char) -> nat {
    ((c as u32) - ('0' as u32)) as nat
}

/// The value of a digit string, most significant digit first.
pub open spec fn dec_val(s: Seq<char>) -> nat
    decreases s.len(),
{
    if s.len() == 0 {
        0
    } else {
        dec_val(s.drop_last()) * 10 + digit_val(s.last())
    }
}

/// Parses a decimal number: the value when the string is non-empty, all
/// digits, and fits the counter; nothing otherwise.
pub fn parse_u64(s: &Vec<char>) -> (r: Option<u64>)
    ensures
        match r {
            Some(v) => s@.len() > 0 && all_digits(s@) && v == dec_val(s@) && dec_val(s@)
                <= u64::MAX,
            None => s@.len() == 0 || !all_digits(s@) || dec_val(s@) > u64::MAX,
        },
{
    let n = s.len();
    if n == 0 {
        return None;
    }
    let mut acc: u64 = 0;
    let mut i: usize = 0;
    proof {
        assert(s@.subrange(0, 0) =~= Seq::<char>::empty());
    }
    while i < n
        invariant
            i <= n,
            n == s@.len(),
            all_digits(s@.subrange(0, i as int)),
            acc == dec_val(s@.subrange(0, i as int)),
        decreases n - i,
    {
        let c = s[i];
        if !('0' <= c && c <= '9') {
            proof {
                assert(!all_digits(s@));
            }
            return None;
        }
        let d = (c as u32) - ('0' as u32);
        if acc > (u64::MAX - d as u64) / 10 {
            proof {
                lemma_dec_val_prefix_monotone(s@, i as int + 1);
                assert(s@.subrange(0, i as int + 1).drop_last() =~= s@.subrange(0, i as int));
                assert(s@.subrange(0, i as int + 1).last() == s@[i as int]);
            }
            return None;
        }
        acc = acc * 10 + (d as u64);
        i += 1;
        proof {
            assert(s@.subrange(0, i as int).drop_last() =~= s@.subrange(0, i as int - 1));
            assert(s@.subrange(0, i as int).last() == s@[i as int - 1]);
        }
    }
    proof {
        assert(s@.subrange(0, n as int) =~= s@);
    }
    Some(acc)
}

/// A longer digit prefix never has a smaller value.
proof fn lemma_dec_val_prefix_monotone(s: Seq<char>, j: int)
    requires
        0 <= j <= s.len(),
    ensures
        dec_val(s.subrange(0, j)) <= dec_val(s),
    decreases s.len() - j,
{
    if j == s.len() {
        assert(s.subrange(0, j) =~= s);
    } else {
        lemma_dec_val_prefix_monotone(s, j + 1);
        assert(s.subrange(0, j + 1).drop_last() =~= s.subrange(0, j));
        assert(dec_val(s.subrange(0, j + 1)) == dec_val(s.subrange(0, j)) * 10 + digit_val(
            s.subrange(0, j + 1).last(),
        ));
    }
}

} // verus!
