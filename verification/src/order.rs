use vstd::prelude::*;

verus! {

// ---------------------------------------------------------------------------
// Three-way comparisons
// ---------------------------------------------------------------------------

/// A lawful three-way comparison: values in `{-1, 0, 1}`, zero exactly on
/// equal arguments, antisymmetric, and transitive in its `<= 0` relation
/// (including strictness on either side).
pub open spec fn proper_cmp<T>(cmp: spec_fn(T, T) -> int) -> bool {
    &&& forall|x: T, y: T| -1 <= #[trigger] cmp(x, y) <= 1
    &&& forall|x: T, y: T| (#[trigger] cmp(x, y) == 0) <==> x == y
    &&& forall|x: T, y: T| #[trigger] cmp(x, y) == -cmp(y, x)
    &&& forall|x: T, y: T, z: T|
        #![trigger cmp(x, y), cmp(y, z)]
        cmp(x, y) <= 0 && cmp(y, z) <= 0 ==> cmp(x, z) <= 0 && (cmp(x, z) == 0 ==> cmp(x, y) == 0
            && cmp(y, z) == 0)
}

/// Two fields compared in order: the first that differs decides.
pub open spec fn cmp_chain(first: int, second: int) -> int {
    if first != 0 {
        first
    } else {
        second
    }
}

// ---------------------------------------------------------------------------
// Characters and character sequences
// ---------------------------------------------------------------------------

/// Characters compare by code point.
pub open spec fn cmp_char(a: char, b: char) -> int {
    if (a as u32) < (b as u32) {
        -1int
    } else if (a as u32) == (b as u32) {
        0int
    } else {
        1int
    }
}

/// Equal code points mean equal characters.
proof fn lemma_char_inj(x: char, y: char)
    requires
        x as u32 == y as u32,
    ensures
        x == y,
{
}

/// Strings compare lexicographically by code point, a shorter prefix first;
/// this agrees with Rust's byte-wise order on UTF-8 strings.
pub open spec fn cmp_str(a: Seq<char>, b: Seq<char>) -> int
    decreases a.len(),
{
    if a.len() == 0 && b.len() == 0 {
        0int
    } else if a.len() == 0 {
        -1int
    } else if b.len() == 0 {
        1int
    } else if cmp_char(a[0], b[0]) != 0 {
        cmp_char(a[0], b[0])
    } else {
        cmp_str(a.skip(1), b.skip(1))
    }
}

pub proof fn lemma_cmp_str_range(a: Seq<char>, b: Seq<char>)
    ensures
        -1 <= cmp_str(a, b) <= 1,
    decreases a.len(),
{
    if a.len() > 0 && b.len() > 0 && cmp_char(a[0], b[0]) == 0 {
        lemma_cmp_str_range(a.skip(1), b.skip(1));
    }
}

pub proof fn lemma_cmp_str_eq(a: Seq<char>, b: Seq<char>)
    ensures
        (cmp_str(a, b) == 0) <==> (a == b),
    decreases a.len(),
{
    if a.len() == 0 && b.len() == 0 {
        assert(a =~= b);
    } else if a.len() == 0 || b.len() == 0 {
    } else {
        lemma_cmp_str_eq(a.skip(1), b.skip(1));
        if cmp_str(a, b) == 0 {
            assert(cmp_char(a[0], b[0]) == 0);
            lemma_char_inj(a[0], b[0]);
            assert(a =~= seq![a[0]] + a.skip(1));
            assert(b =~= seq![b[0]] + b.skip(1));
        } else {
            if a == b {
                assert(a.skip(1) =~= b.skip(1));
            }
        }
    }
}

pub proof fn lemma_cmp_str_antisym(a: Seq<char>, b: Seq<char>)
    ensures
        cmp_str(a, b) == -cmp_str(b, a),
    decreases a.len(),
{
    if a.len() > 0 && b.len() > 0 && cmp_char(a[0], b[0]) == 0 {
        lemma_cmp_str_antisym(a.skip(1), b.skip(1));
    }
}

pub proof fn lemma_cmp_str_trans(a: Seq<char>, b: Seq<char>, c: Seq<char>)
    requires
        cmp_str(a, b) <= 0,
        cmp_str(b, c) <= 0,
    ensures
        cmp_str(a, c) <= 0,
        cmp_str(a, c) == 0 ==> cmp_str(a, b) == 0 && cmp_str(b, c) == 0,
    decreases a.len(),
{
    lemma_cmp_str_range(a, b);
    lemma_cmp_str_range(b, c);
    lemma_cmp_str_range(a, c);
    if a.len() == 0 {
        if c.len() == 0 {
            assert(b.len() == 0);
        }
    } else {
        // a non-empty; since cmp_str(a, b) <= 0, b is non-empty too.
        if b.len() == 0 {
        } else if c.len() == 0 {
        } else {
            if cmp_char(a[0], b[0]) == 0 && cmp_char(b[0], c[0]) == 0 {
                lemma_cmp_str_trans(a.skip(1), b.skip(1), c.skip(1));
            }
        }
    }
}

pub proof fn lemma_cmp_str_proper()
    ensures
        proper_cmp(|a: Seq<char>, b: Seq<char>| cmp_str(a, b)),
{
    assert forall|a: Seq<char>, b: Seq<char>| -1 <= #[trigger] cmp_str(a, b) <= 1 by {
        lemma_cmp_str_range(a, b);
    }
    assert forall|a: Seq<char>, b: Seq<char>| (#[trigger] cmp_str(a, b) == 0) <==> a == b by {
        lemma_cmp_str_eq(a, b);
    }
    assert forall|a: Seq<char>, b: Seq<char>| #[trigger] cmp_str(a, b) == -cmp_str(b, a) by {
        lemma_cmp_str_antisym(a, b);
    }
    assert forall|a: Seq<char>, b: Seq<char>, c: Seq<char>|
        #![trigger cmp_str(a, b), cmp_str(b, c)]
        cmp_str(a, b) <= 0 && cmp_str(b, c) <= 0 implies cmp_str(a, c) <= 0 && (cmp_str(a, c) == 0
        ==> cmp_str(a, b) == 0 && cmp_str(b, c) == 0) by {
        lemma_cmp_str_trans(a, b, c);
    }
    let f = |a: Seq<char>, b: Seq<char>| cmp_str(a, b);
    assert(proper_cmp(f));
}

/// Compares two strings character by character.
#[verifier::loop_isolation(false)]
pub fn cmp_str_exec(a: &str, b: &str) -> (r: i32)
    ensures
        r as int == cmp_str(a@, b@),
{
    let na = a.unicode_len();
    let nb = b.unicode_len();
    let n = if na < nb {
        na
    } else {
        nb
    };
    let mut i: usize = 0;
    proof {
        assert(a@.skip(0) =~= a@);
        assert(b@.skip(0) =~= b@);
    }
    while i < n
        invariant
            i <= n,
            cmp_str(a@, b@) == cmp_str(a@.skip(i as int), b@.skip(i as int)),
        decreases n - i,
    {
        let ca = a.get_char(i);
        let cb = b.get_char(i);
        proof {
            assert(a@.skip(i as int)[0] == a@[i as int]);
            assert(b@.skip(i as int)[0] == b@[i as int]);
        }
        if (ca as u32) < (cb as u32) {
            return -1;
        }
        if (ca as u32) > (cb as u32) {
            return 1;
        }
        proof {
            assert(a@.skip(i as int).skip(1) =~= a@.skip(i + 1));
            assert(b@.skip(i as int).skip(1) =~= b@.skip(i + 1));
        }
        i += 1;
    }
    if na < nb {
        proof {
            assert(a@.skip(n as int).len() == 0);
            assert(b@.skip(n as int).len() > 0);
        }
        -1
    } else if na > nb {
        proof {
            assert(b@.skip(n as int).len() == 0);
            assert(a@.skip(n as int).len() > 0);
        }
        1
    } else {
        proof {
            assert(a@.skip(n as int).len() == 0);
            assert(b@.skip(n as int).len() == 0);
        }
        0
    }
}

// ---------------------------------------------------------------------------
// Options
// ---------------------------------------------------------------------------

/// Options compare with `None` before any `Some`, then by the inner value.
pub open spec fn cmp_opt<T>(a: Option<T>, b: Option<T>, cmp: spec_fn(T, T) -> int) -> int {
    match (a, b) {
        (Option::None, Option::None) => 0int,
        (Option::None, Option::Some(_)) => -1int,
        (Option::Some(_), Option::None) => 1int,
        (Option::Some(x), Option::Some(y)) => cmp(x, y),
    }
}

pub proof fn lemma_cmp_opt_proper<T>(cmp: spec_fn(T, T) -> int)
    requires
        proper_cmp(cmp),
    ensures
        proper_cmp(|a: Option<T>, b: Option<T>| cmp_opt(a, b, cmp)),
{
}

// ---------------------------------------------------------------------------
// Sequences under an element comparison
// ---------------------------------------------------------------------------

/// Sequences compare lexicographically under an element comparison, a
/// shorter prefix first.
pub open spec fn cmp_lex<T>(a: Seq<T>, b: Seq<T>, cmp: spec_fn(T, T) -> int) -> int
    decreases a.len(),
{
    if a.len() == 0 && b.len() == 0 {
        0int
    } else if a.len() == 0 {
        -1int
    } else if b.len() == 0 {
        1int
    } else if cmp(a[0], b[0]) != 0 {
        cmp(a[0], b[0])
    } else {
        cmp_lex(a.skip(1), b.skip(1), cmp)
    }
}

pub proof fn lemma_cmp_lex_range<T>(a: Seq<T>, b: Seq<T>, cmp: spec_fn(T, T) -> int)
    requires
        proper_cmp(cmp),
    ensures
        -1 <= cmp_lex(a, b, cmp) <= 1,
    decreases a.len(),
{
    if a.len() > 0 && b.len() > 0 && cmp(a[0], b[0]) == 0 {
        lemma_cmp_lex_range(a.skip(1), b.skip(1), cmp);
    }
}

pub proof fn lemma_cmp_lex_eq<T>(a: Seq<T>, b: Seq<T>, cmp: spec_fn(T, T) -> int)
    requires
        proper_cmp(cmp),
    ensures
        (cmp_lex(a, b, cmp) == 0) <==> (a == b),
    decreases a.len(),
{
    if a.len() == 0 && b.len() == 0 {
        assert(a =~= b);
    } else if a.len() == 0 || b.len() == 0 {
    } else {
        lemma_cmp_lex_eq(a.skip(1), b.skip(1), cmp);
        if cmp_lex(a, b, cmp) == 0 {
            assert(a[0] == b[0]);
            assert(a =~= seq![a[0]] + a.skip(1));
            assert(b =~= seq![b[0]] + b.skip(1));
        } else {
            if a == b {
                assert(a.skip(1) =~= b.skip(1));
            }
        }
    }
}

pub proof fn lemma_cmp_lex_antisym<T>(a: Seq<T>, b: Seq<T>, cmp: spec_fn(T, T) -> int)
    requires
        proper_cmp(cmp),
    ensures
        cmp_lex(a, b, cmp) == -cmp_lex(b, a, cmp),
    decreases a.len(),
{
    if a.len() > 0 && b.len() > 0 {
        if cmp(a[0], b[0]) == 0 {
            assert(cmp(b[0], a[0]) == 0);
            lemma_cmp_lex_antisym(a.skip(1), b.skip(1), cmp);
        }
    }
}

pub proof fn lemma_cmp_lex_trans<T>(a: Seq<T>, b: Seq<T>, c: Seq<T>, cmp: spec_fn(T, T) -> int)
    requires
        proper_cmp(cmp),
        cmp_lex(a, b, cmp) <= 0,
        cmp_lex(b, c, cmp) <= 0,
    ensures
        cmp_lex(a, c, cmp) <= 0,
        cmp_lex(a, c, cmp) == 0 ==> cmp_lex(a, b, cmp) == 0 && cmp_lex(b, c, cmp) == 0,
    decreases a.len(),
{
    lemma_cmp_lex_range(a, b, cmp);
    lemma_cmp_lex_range(b, c, cmp);
    lemma_cmp_lex_range(a, c, cmp);
    if a.len() == 0 {
        if c.len() == 0 {
            assert(b.len() == 0);
        }
    } else {
        if b.len() == 0 {
        } else if c.len() == 0 {
        } else {
            if cmp(a[0], b[0]) == 0 && cmp(b[0], c[0]) == 0 {
                assert(cmp(a[0], c[0]) == 0);
                lemma_cmp_lex_trans(a.skip(1), b.skip(1), c.skip(1), cmp);
            }
        }
    }
}

pub proof fn lemma_cmp_lex_proper<T>(cmp: spec_fn(T, T) -> int)
    requires
        proper_cmp(cmp),
    ensures
        proper_cmp(|a: Seq<T>, b: Seq<T>| cmp_lex(a, b, cmp)),
{
    assert forall|a: Seq<T>, b: Seq<T>| -1 <= #[trigger] cmp_lex(a, b, cmp) <= 1 by {
        lemma_cmp_lex_range(a, b, cmp);
    }
    assert forall|a: Seq<T>, b: Seq<T>| (#[trigger] cmp_lex(a, b, cmp) == 0) <==> a == b by {
        lemma_cmp_lex_eq(a, b, cmp);
    }
    assert forall|a: Seq<T>, b: Seq<T>| #[trigger] cmp_lex(a, b, cmp) == -cmp_lex(b, a, cmp) by {
        lemma_cmp_lex_antisym(a, b, cmp);
    }
    assert forall|a: Seq<T>, b: Seq<T>, c: Seq<T>|
        #![trigger cmp_lex(a, b, cmp), cmp_lex(b, c, cmp)]
        cmp_lex(a, b, cmp) <= 0 && cmp_lex(b, c, cmp) <= 0 implies cmp_lex(a, c, cmp) <= 0 && (
    cmp_lex(a, c, cmp) == 0 ==> cmp_lex(a, b, cmp) == 0 && cmp_lex(b, c, cmp) == 0) by {
        lemma_cmp_lex_trans(a, b, c, cmp);
    }
}

} // verus!
