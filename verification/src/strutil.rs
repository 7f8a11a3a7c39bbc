use vstd::prelude::*;

verus! {

// ---------------------------------------------------------------------------
// Character classes
// ---------------------------------------------------------------------------

/// The Unicode `White_Space` code points, the class that whitespace
/// normalization collapses.
pub open spec fn is_space_char(c: char) -> bool {
    let u = c as u32;
    (9 <= u <= 13) || u == 32 || u == 0x85 || u == 0xA0 || u == 0x1680 || (0x2000 <= u <= 0x200A)
        || u == 0x2028 || u == 0x2029 || u == 0x202F || u == 0x205F || u == 0x3000
}

pub fn is_space(c: char) -> (r: bool)
    ensures
        r == is_space_char(c),
{
    let u = c as u32;
    (9 <= u && u <= 13) || u == 32 || u == 0x85 || u == 0xA0 || u == 0x1680 || (0x2000 <= u && u
        <= 0x200A) || u == 0x2028 || u == 0x2029 || u == 0x202F || u == 0x205F || u == 0x3000
}

pub open spec fn is_digit_char(c: char) -> bool {
    '0' <= c <= '9'
}

/// The numeric value of a decimal digit character.
pub open spec fn digit_val(c: char) -> nat {
    (c as u32 - '0' as u32) as nat
}

// ---------------------------------------------------------------------------
// Equality, prefixes, search
// ---------------------------------------------------------------------------

/// Character-for-character equality of two string slices.
pub fn str_eq(a: &str, b: &str) -> (r: bool)
    ensures
        r == (a@ == b@),
{
    let na = a.unicode_len();
    let nb = b.unicode_len();
    if na != nb {
        return false;
    }
    let mut i: usize = 0;
    while i < na
        invariant
            i <= na,
            na == a@.len(),
            na == b@.len(),
            forall|j: int| 0 <= j < i ==> a@[j] == b@[j],
        decreases na - i,
    {
        if a.get_char(i) != b.get_char(i) {
            return false;
        }
        i += 1;
    }
    proof {
        assert(a@ =~= b@);
    }
    true
}

/// Whether `s` begins with `prefix`.
pub fn str_starts_with(s: &str, prefix: &str) -> (r: bool)
    ensures
        r == prefix@.is_prefix_of(s@),
{
    let n = s.unicode_len();
    let np = prefix.unicode_len();
    if np > n {
        return false;
    }
    let mut i: usize = 0;
    while i < np
        invariant
            i <= np <= n,
            n == s@.len(),
            np == prefix@.len(),
            forall|j: int| 0 <= j < i ==> s@[j] == prefix@[j],
        decreases np - i,
    {
        if s.get_char(i) != prefix.get_char(i) {
            return false;
        }
        i += 1;
    }
    proof {
        assert(s@.subrange(0, np as int) =~= prefix@);
    }
    true
}

/// Whether some character of `s` equals `c`.
pub fn str_contains_char(s: &str, c: char) -> (r: bool)
    ensures
        r == s@.contains(c),
{
    let n = s.unicode_len();
    let mut i: usize = 0;
    while i < n
        invariant
            i <= n,
            n == s@.len(),
            forall|j: int| 0 <= j < i ==> s@[j] != c,
        decreases n - i,
    {
        if s.get_char(i) == c {
            return true;
        }
        i += 1;
    }
    false
}

/// Whether `sub` occurs contiguously somewhere in `s`.
pub open spec fn contains_seq(s: Seq<char>, sub: Seq<char>) -> bool {
    exists|i: int|
        0 <= i && i + sub.len() <= s.len() && #[trigger] s.subrange(i, i + sub.len() as int)
            =~= sub
}

fn matches_at(s: &str, sub: &str, at: usize) -> (r: bool)
    requires
        at + sub@.len() <= s@.len(),
    ensures
        r == (s@.subrange(at as int, at + sub@.len() as int) =~= sub@),
{
    let np = sub.unicode_len();
    let sn = s.unicode_len();
    let mut i: usize = 0;
    while i < np
        invariant
            i <= np,
            np == sub@.len(),
            sn == s@.len(),
            at + np <= sn,
            forall|j: int| 0 <= j < i ==> s@[at + j] == sub@[j],
        decreases np - i,
    {
        if s.get_char(at + i) != sub.get_char(i) {
            proof {
                let g = s@.subrange(at as int, at + sub@.len() as int);
                assert(g[i as int] == s@[at + i]);
            }
            return false;
        }
        i += 1;
    }
    proof {
        assert(s@.subrange(at as int, at + sub@.len() as int) =~= sub@);
    }
    true
}

/// Substring search.
pub fn str_contains(s: &str, sub: &str) -> (r: bool)
    ensures
        r == contains_seq(s@, sub@),
{
    let n = s.unicode_len();
    let np = sub.unicode_len();
    if np > n {
        return false;
    }
    let mut i: usize = 0;
    while i <= n - np
        invariant
            np <= n,
            n == s@.len(),
            np == sub@.len(),
            i <= n - np + 1,
            forall|k: int|
                0 <= k < i ==> !(#[trigger] s@.subrange(k, k + sub@.len() as int) =~= sub@),
        decreases n + 1 - np - i,
    {
        if matches_at(s, sub, i) {
            return true;
        }
        i += 1;
    }
    false
}

/// The first position at or after `start` holding `c`, if any.
pub fn find_char_from(s: &str, c: char, start: usize) -> (r: Option<usize>)
    requires
        start <= s@.len(),
    ensures
        match r {
            Some(i) => start <= i < s@.len() && s@[i as int] == c && forall|j: int|
                start <= j < i ==> s@[j] != c,
            None => forall|j: int| start <= j < s@.len() ==> s@[j] != c,
        },
{
    let n = s.unicode_len();
    let mut i: usize = start;
    while i < n
        invariant
            start <= i <= n,
            n == s@.len(),
            forall|j: int| start <= j < i ==> s@[j] != c,
        decreases n - i,
    {
        if s.get_char(i) == c {
            return Some(i);
        }
        i += 1;
    }
    None
}

// ---------------------------------------------------------------------------
// Splitting on a separator character
// ---------------------------------------------------------------------------

/// The position of the first occurrence of `c` in `s`, or `s.len()` if absent.
pub open spec fn first_char_at(s: Seq<char>, c: char) -> nat
    decreases s.len(),
{
    if s.len() == 0 {
        0
    } else if s[0] == c {
        0
    } else {
        1 + first_char_at(s.skip(1), c)
    }
}

pub proof fn lemma_first_char_at(s: Seq<char>, c: char)
    ensures
        first_char_at(s, c) <= s.len(),
        forall|j: int| 0 <= j < first_char_at(s, c) ==> s[j] != c,
        first_char_at(s, c) < s.len() ==> s[first_char_at(s, c) as int] == c,
    decreases s.len(),
{
    if s.len() == 0 {
    } else if s[0] == c {
    } else {
        lemma_first_char_at(s.skip(1), c);
        assert forall|j: int| 0 <= j < first_char_at(s, c) implies s[j] != c by {
            if j > 0 {
                assert(s.skip(1)[j - 1] == s[j]);
            }
        }
        if first_char_at(s, c) < s.len() {
            assert(s.skip(1)[first_char_at(s, c) - 1] == s[first_char_at(s, c) as int]);
        }
    }
}

/// The pieces of `s` between occurrences of the separator `c`; empty pieces
/// are kept, and a trailing separator yields a final empty piece.
pub open spec fn split_char_seq(s: Seq<char>, c: char) -> Seq<Seq<char>>
    decreases s.len(),
{
    let i = first_char_at(s, c);
    if i >= s.len() {
        seq![s]
    } else {
        seq![s.take(i as int)] + split_char_seq(s.skip(i + 1 as int), c)
    }
}

/// Splits `s` at every occurrence of `c`, keeping empty pieces.
pub fn split_char(s: &str, c: char) -> (parts: Vec<String>)
    ensures
        parts.deep_view() == split_char_seq(s@, c),
    decreases s@.len(),
{
    let n = s.unicode_len();
    match find_char_from(s, c, 0) {
        None => {
            let mut parts: Vec<String> = Vec::new();
            parts.push(s.to_owned());
            proof {
                lemma_first_char_at(s@, c);
                assert(first_char_at(s@, c) >= s@.len());
                assert(parts.deep_view() =~= split_char_seq(s@, c));
            }
            parts
        },
        Some(i) => {
            let head = s.substring_char(0, i).to_owned();
            let tail = s.substring_char(i + 1, n);
            let mut parts = split_char(tail, c);
            parts.insert(0, head);
            proof {
                lemma_first_char_at(s@, c);
                let fi = first_char_at(s@, c);
                assert(fi == i);
                assert(tail@ =~= s@.skip(i + 1));
                assert(head@ =~= s@.take(i as int));
                assert(parts.deep_view() =~= seq![head@] + split_char_seq(tail@, c));
                assert(parts.deep_view() =~= split_char_seq(s@, c));
            }
            parts
        },
    }
}

// ---------------------------------------------------------------------------
// Whitespace words and normalization
// ---------------------------------------------------------------------------

/// The position of the first whitespace character of `s`, or `s.len()`.
pub open spec fn first_space_at(s: Seq<char>) -> nat
    decreases s.len(),
{
    if s.len() == 0 {
        0
    } else if is_space_char(s[0]) {
        0
    } else {
        1 + first_space_at(s.skip(1))
    }
}

pub proof fn lemma_first_space_at(s: Seq<char>)
    ensures
        first_space_at(s) <= s.len(),
        forall|j: int| 0 <= j < first_space_at(s) ==> !is_space_char(s[j]),
        first_space_at(s) < s.len() ==> is_space_char(s[first_space_at(s) as int]),
    decreases s.len(),
{
    if s.len() == 0 {
    } else if is_space_char(s[0]) {
    } else {
        lemma_first_space_at(s.skip(1));
        assert forall|j: int| 0 <= j < first_space_at(s) implies !is_space_char(s[j]) by {
            if j > 0 {
                assert(s.skip(1)[j - 1] == s[j]);
            }
        }
        if first_space_at(s) < s.len() {
            assert(s.skip(1)[first_space_at(s) - 1] == s[first_space_at(s) as int]);
        }
    }
}

/// `s` split at every whitespace character, empty pieces kept.
pub open spec fn split_spaces_seq(s: Seq<char>) -> Seq<Seq<char>>
    decreases s.len(),
{
    let i = first_space_at(s);
    if i >= s.len() {
        seq![s]
    } else {
        seq![s.take(i as int)] + split_spaces_seq(s.skip(i + 1 as int))
    }
}

/// The maximal runs of non-whitespace characters of `s`.
pub open spec fn words_seq(s: Seq<char>) -> Seq<Seq<char>> {
    split_spaces_seq(s).filter(|w: Seq<char>| w.len() > 0)
}

/// The words joined by single spaces.
pub open spec fn join_spaces_seq(ws: Seq<Seq<char>>) -> Seq<char>
    decreases ws.len(),
{
    if ws.len() == 0 {
        Seq::empty()
    } else if ws.len() == 1 {
        ws[0]
    } else {
        join_spaces_seq(ws.drop_last()) + seq![' '] + ws.last()
    }
}

/// `s` with every maximal whitespace run collapsed to one space and
/// leading/trailing whitespace removed.
pub open spec fn normalized_spaces(s: Seq<char>) -> Seq<char> {
    join_spaces_seq(words_seq(s))
}

fn find_space_from(s: &str, start: usize) -> (r: Option<usize>)
    requires
        start <= s@.len(),
    ensures
        match r {
            Some(i) => start <= i < s@.len() && is_space_char(s@[i as int]) && forall|j: int|
                start <= j < i ==> !is_space_char(s@[j]),
            None => forall|j: int| start <= j < s@.len() ==> !is_space_char(s@[j]),
        },
{
    let n = s.unicode_len();
    let mut i: usize = start;
    while i < n
        invariant
            start <= i <= n,
            n == s@.len(),
            forall|j: int| start <= j < i ==> !is_space_char(s@[j]),
        decreases n - i,
    {
        if is_space(s.get_char(i)) {
            return Some(i);
        }
        i += 1;
    }
    None
}

fn split_spaces(s: &str) -> (parts: Vec<String>)
    ensures
        parts.deep_view() == split_spaces_seq(s@),
    decreases s@.len(),
{
    let n = s.unicode_len();
    match find_space_from(s, 0) {
        None => {
            let mut parts: Vec<String> = Vec::new();
            parts.push(s.to_owned());
            proof {
                lemma_first_space_at(s@);
                assert(first_space_at(s@) >= s@.len());
                assert(parts.deep_view() =~= split_spaces_seq(s@));
            }
            parts
        },
        Some(i) => {
            let head = s.substring_char(0, i).to_owned();
            let tail = s.substring_char(i + 1, n);
            let mut parts = split_spaces(tail);
            parts.insert(0, head);
            proof {
                lemma_first_space_at(s@);
                let fi = first_space_at(s@);
                assert(fi == i);
                assert(tail@ =~= s@.skip(i + 1));
                assert(head@ =~= s@.take(i as int));
                assert(parts.deep_view() =~= seq![head@] + split_spaces_seq(tail@));
                assert(parts.deep_view() =~= split_spaces_seq(s@));
            }
            parts
        },
    }
}

/// Collapses every whitespace run of `s` to one space and trims the ends.
#[verifier::loop_isolation(false)]
pub fn normalize_spaces(s: &str) -> (r: String)
    ensures
        r@ == normalized_spaces(s@),
{
    broadcast use vstd::prelude::Seq::filter_distributes_over_add;

    let parts = split_spaces(s);
    let ghost pred = |w: Seq<char>| w.len() > 0;
    let mut ws: Vec<String> = Vec::new();
    let mut i: usize = 0;
    while i < parts.len()
        invariant
            i <= parts.len(),
            parts.deep_view() == split_spaces_seq(s@),
            ws.deep_view() == parts.deep_view().take(i as int).filter(pred),
        decreases parts.len() - i,
    {
        let ghost dvp = parts.deep_view();
        let ghost x = dvp[i as int];
        let ghost prev = ws.deep_view();
        proof {
            reveal_with_fuel(Seq::<_>::filter, 2);
            assert(x == parts@[i as int]@);
            assert(dvp.take(i + 1) =~= dvp.take(i as int) + seq![x]);
            Seq::<Seq<char>>::filter_distributes_over_add(dvp.take(i as int), seq![x], pred);
            assert(seq![x].drop_last() =~= Seq::<Seq<char>>::empty());
            assert(seq![x].filter(pred) =~= (if pred(x) {
                seq![x]
            } else {
                Seq::<Seq<char>>::empty()
            }));
        }
        if !parts[i].as_str().is_empty() {
            let w = parts[i].clone();
            assert(w@ == x);
            ws.push(w);
            proof {
                assert(ws.deep_view() =~= prev + seq![x]);
                assert(ws.deep_view() =~= dvp.take(i + 1).filter(pred));
            }
        } else {
            proof {
                assert(x.len() == 0);
                assert(ws.deep_view() =~= dvp.take(i + 1).filter(pred));
            }
        }
        i += 1;
    }
    proof {
        assert(parts.deep_view().take(parts.deep_view().len() as int) =~= parts.deep_view());
        assert(ws.deep_view() == words_seq(s@));
    }
    let mut out = String::new();
    let mut k: usize = 0;
    while k < ws.len()
        invariant
            k <= ws.len(),
            ws.deep_view() == words_seq(s@),
            out@ == join_spaces_seq(ws.deep_view().take(k as int)),
        decreases ws.len() - k,
    {
        if k > 0 {
            out.append(" ");
        }
        out.append(ws[k].as_str());
        proof {
            reveal_strlit(" ");
            assert(" "@ =~= seq![' ']);
            let dv = ws.deep_view();
            assert(dv.take(k + 1).drop_last() =~= dv.take(k as int));
            assert(dv.take(k + 1).last() == dv[k as int]);
            if k == 0 {
                assert(dv.take(1) =~= seq![dv[0]]);
                assert(out@ =~= dv[0]);
            } else {
                assert(out@ =~= join_spaces_seq(dv.take(k as int)) + seq![' '] + dv[k as int]);
            }
        }
        k += 1;
    }
    proof {
        assert(ws.deep_view().take(ws.deep_view().len() as int) =~= ws.deep_view());
    }
    out
}

// ---------------------------------------------------------------------------
// Removing a character, stripping a prefix
// ---------------------------------------------------------------------------

/// `s` with every occurrence of `c` removed.
pub open spec fn removed_char(s: Seq<char>, c: char) -> Seq<char>
    decreases s.len(),
{
    let i = first_char_at(s, c);
    if i >= s.len() {
        s
    } else {
        s.take(i as int) + removed_char(s.skip(i + 1 as int), c)
    }
}

/// Removes every occurrence of `c` from `s`.
pub fn remove_char(s: &str, c: char) -> (r: String)
    ensures
        r@ == removed_char(s@, c),
    decreases s@.len(),
{
    let n = s.unicode_len();
    match find_char_from(s, c, 0) {
        None => {
            proof {
                lemma_first_char_at(s@, c);
            }
            s.to_owned()
        },
        Some(i) => {
            let head = s.substring_char(0, i).to_owned();
            let tail = s.substring_char(i + 1, n);
            let rest = remove_char(tail, c);
            let r = head.concat(rest.as_str());
            proof {
                lemma_first_char_at(s@, c);
                assert(first_char_at(s@, c) == i);
                assert(tail@ =~= s@.skip(i + 1));
                assert(head@ =~= s@.take(i as int));
            }
            r
        },
    }
}

/// `s` with one leading occurrence of `prefix` removed, if it is there.
pub fn strip_prefix_once(s: &str, prefix: &str) -> (r: String)
    ensures
        r@ == (if prefix@.is_prefix_of(s@) {
            s@.skip(prefix@.len() as int)
        } else {
            s@
        }),
{
    if str_starts_with(s, prefix) {
        let np = prefix.unicode_len();
        let n = s.unicode_len();
        s.substring_char(np, n).to_owned()
    } else {
        s.to_owned()
    }
}

// ---------------------------------------------------------------------------
// Lines
// ---------------------------------------------------------------------------

/// A line with one trailing carriage return removed.
pub open spec fn stripped_cr(l: Seq<char>) -> Seq<char> {
    if l.len() > 0 && l.last() == '\r' {
        l.drop_last()
    } else {
        l
    }
}

/// The lines of `s`: pieces between newline characters, without a final empty
/// piece after a trailing newline, each with one trailing `'\r'` removed.
pub open spec fn lines_seq(s: Seq<char>) -> Seq<Seq<char>> {
    let parts = split_char_seq(s, '\n');
    let kept = if parts.len() > 0 && parts.last().len() == 0 {
        parts.drop_last()
    } else {
        parts
    };
    kept.map_values(|l: Seq<char>| stripped_cr(l))
}

/// Splits `s` into its lines.
#[verifier::loop_isolation(false)]
pub fn lines_of(s: &str) -> (r: Vec<String>)
    ensures
        r.deep_view() == lines_seq(s@),
{
    let mut parts = split_char(s, '\n');
    proof {
        lemma_split_char_nonempty(s@, '\n');
    }
    if parts[parts.len() - 1].as_str().is_empty() {
        parts.pop();
    }
    let ghost kept = parts.deep_view();
    let mut out: Vec<String> = Vec::new();
    let mut i: usize = 0;
    while i < parts.len()
        invariant
            i <= parts.len(),
            parts.deep_view() == kept,
            out.deep_view() =~= kept.take(i as int).map_values(|l: Seq<char>| stripped_cr(l)),
        decreases parts.len() - i,
    {
        let p = &parts[i];
        let np = p.as_str().unicode_len();
        let last_is_cr = np > 0 && p.as_str().get_char(np - 1) == '\r';
        let stripped: String = if last_is_cr {
            p.as_str().substring_char(0, np - 1).to_owned()
        } else {
            p.clone()
        };
        proof {
            assert(kept[i as int] == parts@[i as int]@);
            if last_is_cr {
                assert(stripped@ =~= stripped_cr(kept[i as int]));
            } else {
                assert(stripped@ == stripped_cr(kept[i as int]));
            }
        }
        let ghost prevo = out.deep_view();
        out.push(stripped);
        proof {
            assert(out.deep_view() =~= prevo.push(stripped_cr(kept[i as int])));
            assert(out.deep_view() =~= kept.take(i + 1).map_values(
                |l: Seq<char>| stripped_cr(l),
            ));
        }
        i += 1;
    }
    proof {
        assert(kept.take(kept.len() as int) =~= kept);
    }
    out
}

/// A split never yields an empty piece list.
pub proof fn lemma_split_char_nonempty(s: Seq<char>, c: char)
    ensures
        split_char_seq(s, c).len() > 0,
    decreases s.len(),
{
    let i = first_char_at(s, c);
    if i < s.len() {
    }
}

// ---------------------------------------------------------------------------
// Decimal digits: values and renderings
// ---------------------------------------------------------------------------

/// The numeric value of a string of decimal digit characters, most
/// significant first.
pub open spec fn digits_value(s: Seq<char>) -> nat
    decreases s.len(),
{
    if s.len() == 0 {
        0
    } else {
        digits_value(s.drop_last()) * 10 + digit_val(s.last())
    }
}

pub open spec fn all_digits(s: Seq<char>) -> bool {
    forall|j: int| 0 <= j < s.len() ==> is_digit_char(#[trigger] s[j])
}

/// Whether `s` is one or more decimal digits.
pub fn check_digits(s: &str) -> (r: bool)
    ensures
        r == (s@.len() > 0 && all_digits(s@)),
{
    let n = s.unicode_len();
    if n == 0 {
        return false;
    }
    let mut i: usize = 0;
    while i < n
        invariant
            i <= n,
            n == s@.len(),
            forall|j: int| 0 <= j < i ==> is_digit_char(#[trigger] s@[j]),
        decreases n - i,
    {
        let c = s.get_char(i);
        if c < '0' || c > '9' {
            return false;
        }
        i += 1;
    }
    true
}

pub open spec fn pow10(k: nat) -> nat
    decreases k,
{
    if k == 0 {
        1
    } else {
        10 * pow10((k - 1) as nat)
    }
}

pub proof fn lemma_digits_value_bound(s: Seq<char>)
    requires
        all_digits(s),
    ensures
        digits_value(s) < pow10(s.len()),
    decreases s.len(),
{
    if s.len() == 0 {
    } else {
        assert(all_digits(s.drop_last())) by {
            assert(forall|j: int| 0 <= j < s.len() - 1 ==> s.drop_last()[j] == s[j]);
        }
        lemma_digits_value_bound(s.drop_last());
        assert(digit_val(s.last()) <= 9);
        assert(pow10(s.len()) == 10 * pow10((s.len() - 1) as nat));
    }
}

/// Reads a decimal number of at most nine digits.
#[verifier::loop_isolation(false)]
pub fn parse_u32(s: &str) -> (r: u32)
    requires
        s@.len() > 0,
        s@.len() <= 9,
        all_digits(s@),
    ensures
        r == digits_value(s@),
{
    let n = s.unicode_len();
    let mut acc: u32 = 0;
    let mut i: usize = 0;
    while i < n
        invariant
            i <= n,
            acc == digits_value(s@.take(i as int)),
        decreases n - i,
    {
        let c = s.get_char(i);
        let d: u32 = (c as u32) - 48;
        proof {
            assert(s@.take(i as int).len() == i);
            assert(all_digits(s@.take(i as int))) by {
                assert(forall|j: int| 0 <= j < i ==> s@.take(i as int)[j] == s@[j]);
            }
            lemma_digits_value_bound(s@.take(i as int));
            assert(pow10(0) == 1);
            assert(pow10(1) == 10);
            assert(pow10(2) == 100);
            assert(pow10(3) == 1000);
            assert(pow10(4) == 10000);
            assert(pow10(5) == 100000);
            assert(pow10(6) == 1000000);
            assert(pow10(7) == 10000000);
            assert(pow10(8) == 100000000);
            assert(acc <= 99999999);
        }
        acc = acc * 10 + d;
        proof {
            assert(s@.take(i + 1).drop_last() =~= s@.take(i as int));
            assert(s@.take(i + 1).last() == s@[i as int]);
        }
        i += 1;
    }
    proof {
        assert(s@.take(n as int) =~= s@);
    }
    acc
}

/// The digit character for a value below ten.
pub open spec fn digit_char(d: nat) -> char {
    if d == 0 {
        '0'
    } else if d == 1 {
        '1'
    } else if d == 2 {
        '2'
    } else if d == 3 {
        '3'
    } else if d == 4 {
        '4'
    } else if d == 5 {
        '5'
    } else if d == 6 {
        '6'
    } else if d == 7 {
        '7'
    } else if d == 8 {
        '8'
    } else {
        '9'
    }
}

fn digit_str(d: u32) -> (r: &'static str)
    requires
        d < 10,
    ensures
        r@ =~= seq![digit_char(d as nat)],
{
    proof {
        reveal_strlit("0");
        reveal_strlit("1");
        reveal_strlit("2");
        reveal_strlit("3");
        reveal_strlit("4");
        reveal_strlit("5");
        reveal_strlit("6");
        reveal_strlit("7");
        reveal_strlit("8");
        reveal_strlit("9");
    }
    if d == 0 {
        "0"
    } else if d == 1 {
        "1"
    } else if d == 2 {
        "2"
    } else if d == 3 {
        "3"
    } else if d == 4 {
        "4"
    } else if d == 5 {
        "5"
    } else if d == 6 {
        "6"
    } else if d == 7 {
        "7"
    } else if d == 8 {
        "8"
    } else {
        "9"
    }
}

/// The decimal rendering of `n`, most significant digit first, no padding.
pub open spec fn dec_digits(n: nat) -> Seq<char>
    decreases n,
{
    if n < 10 {
        seq![digit_char(n)]
    } else {
        dec_digits(n / 10) + seq![digit_char(n % 10)]
    }
}

/// Renders `n` in decimal.
pub fn u64_dec(n: u64) -> (r: String)
    ensures
        r@ == dec_digits(n as nat),
    decreases n,
{
    if n < 10 {
        digit_str(n as u32).to_owned()
    } else {
        let q = n / 10;
        let rem = n % 10;
        let r = u64_dec(q).concat(digit_str(rem as u32));
        proof {
            assert(r@ =~= dec_digits(n as nat));
        }
        r
    }
}

/// Renders `n` in decimal.
pub fn u32_dec(n: u32) -> (r: String)
    ensures
        r@ == dec_digits(n as nat),
    decreases n,
{
    if n < 10 {
        digit_str(n).to_owned()
    } else {
        let q = n / 10;
        let rem = n % 10;
        let r = u32_dec(q).concat(digit_str(rem));
        proof {
            assert(r@ =~= dec_digits(n as nat));
        }
        r
    }
}

/// The decimal rendering of `n` left-padded with zeros to at least two digits.
pub open spec fn dec_pad2(n: nat) -> Seq<char> {
    if n < 10 {
        seq!['0'] + dec_digits(n)
    } else {
        dec_digits(n)
    }
}

/// Renders `n` zero-padded to at least two digits.
pub fn u32_pad2(n: u32) -> (r: String)
    ensures
        r@ == dec_pad2(n as nat),
{
    if n < 10 {
        let r = digit_str(0).to_owned().concat(digit_str(n));
        proof {
            assert(r@ =~= dec_pad2(n as nat));
        }
        r
    } else {
        u32_dec(n)
    }
}

/// The decimal rendering of `n` left-padded with zeros to at least four digits.
pub open spec fn dec_pad4(n: nat) -> Seq<char> {
    if n < 10 {
        seq!['0', '0', '0'] + dec_digits(n)
    } else if n < 100 {
        seq!['0', '0'] + dec_digits(n)
    } else if n < 1000 {
        seq!['0'] + dec_digits(n)
    } else {
        dec_digits(n)
    }
}

/// Renders `n` zero-padded to at least four digits.
pub fn u32_pad4(n: u32) -> (r: String)
    ensures
        r@ == dec_pad4(n as nat),
{
    let mut r = String::new();
    if n < 10 {
        r = r.concat(digit_str(0)).concat(digit_str(0)).concat(digit_str(0));
    } else if n < 100 {
        r = r.concat(digit_str(0)).concat(digit_str(0));
    } else if n < 1000 {
        r = r.concat(digit_str(0));
    }
    let r = r.concat(u32_dec(n).as_str());
    proof {
        assert(r@ =~= dec_pad4(n as nat));
    }
    r
}

} // verus!
