//! Text helpers: the lexicographic order of strings, decimal rendering of
//! integers and the path-safe rewriting of names.

use vstd::prelude::*;

verus! {

/// Strict lexicographic order on character sequences, comparing characters
/// by their code points (the order of `String`'s `Ord`, since UTF-8 keeps the
/// order of code points).
pub open spec fn chars_before(a: Seq<char>, b: Seq<char>) -> bool
    decreases a.len(),
{
    if a.len() == 0 {
        b.len() > 0
    } else if b.len() == 0 {
        false
    } else if a[0] != b[0] {
        (a[0] as int) < (b[0] as int)
    } else {
        chars_before(a.drop_first(), b.drop_first())
    }
}

/// `chars_before` never holds of a sequence and itself.
pub proof fn lemma_chars_before_irreflexive(a: Seq<char>)
    ensures
        !chars_before(a, a),
    decreases a.len(),
{
    if a.len() > 0 {
        lemma_chars_before_irreflexive(a.drop_first());
    }
}

/// `chars_before` is transitive.
pub proof fn lemma_chars_before_transitive(a: Seq<char>, b: Seq<char>, c: Seq<char>)
    requires
        chars_before(a, b),
        chars_before(b, c),
    ensures
        chars_before(a, c),
    decreases a.len(),
{
    if a.len() > 0 && b.len() > 0 && c.len() > 0 {
        if a[0] == b[0] && b[0] == c[0] {
            lemma_chars_before_transitive(a.drop_first(), b.drop_first(), c.drop_first());
        }
    }
}

/// Of two different sequences, one comes before the other.
pub proof fn lemma_chars_before_total(a: Seq<char>, b: Seq<char>)
    requires
        a != b,
    ensures
        chars_before(a, b) || chars_before(b, a),
    decreases a.len(),
{
    if a.len() > 0 && b.len() > 0 && a[0] == b[0] {
        if a.drop_first() == b.drop_first() {
            assert(a =~= seq![a[0]] + a.drop_first());
            assert(b =~= seq![b[0]] + b.drop_first());
        }
        lemma_chars_before_total(a.drop_first(), b.drop_first());
    } else if a.len() > 0 && b.len() > 0 {
        assert((a[0] as int) != (b[0] as int));
    } else if a.len() == 0 && b.len() == 0 {
        assert(a =~= b);
    }
}

/// Whether `a` comes strictly before `b` in lexicographic order.
pub fn string_before(a: &String, b: &String) -> (r: bool)
    ensures
        r == chars_before(a@, b@),
{
    let sa = a.as_str();
    let sb = b.as_str();
    let la = sa.unicode_len();
    let lb = sb.unicode_len();
    let mut i: usize = 0;
    assert(a@.skip(0) =~= a@);
    assert(b@.skip(0) =~= b@);
    while i < la && i < lb
        invariant
            sa@ == a@,
            sb@ == b@,
            la == a@.len(),
            lb == b@.len(),
            i <= la,
            i <= lb,
            chars_before(a@, b@) == chars_before(a@.skip(i as int), b@.skip(i as int)),
        decreases la - i,
    {
        let ca = sa.get_char(i);
        let cb = sb.get_char(i);
        if ca != cb {
            return ca < cb;
        }
        assert(a@.skip(i as int).drop_first() =~= a@.skip(i + 1));
        assert(b@.skip(i as int).drop_first() =~= b@.skip(i + 1));
        i = i + 1;
    }
    i < lb
}


/// The decimal digit character of `d`, for `d < 10`.
pub open spec fn digit_char(d: nat) -> char {
    if d == 0 {
        '0'
    } else if d == 1 {
        '1'
    } else if d == 2 {
        '2'
    } else if d == 3 {
        '3'
    } else if d == 4 {
        '4'
    } else if d == 5 {
        '5'
    } else if d == 6 {
        '6'
    } else if d == 7 {
        '7'
    } else if d == 8 {
        '8'
    } else {
        '9'
    }
}

/// The decimal rendering of `n`, without sign or leading zeros (as `{}`
/// formats an unsigned integer).
pub open spec fn decimal(n: nat) -> Seq<char>
    decreases n,
{
    if n < 10 {
        seq![digit_char(n)]
    } else {
        decimal(n / 10).push(digit_char(n % 10))
    }
}

fn digit_text(d: u64) -> (s: &'static str)
    requires
        d < 10,
    ensures
        s@ == seq![digit_char(d as nat)],
{
    if d == 0 {
        proof { reveal_strlit("0"); }
        "0"
    } else if d == 1 {
        proof { reveal_strlit("1"); }
        "1"
    } else if d == 2 {
        proof { reveal_strlit("2"); }
        "2"
    } else if d == 3 {
        proof { reveal_strlit("3"); }
        "3"
    } else if d == 4 {
        proof { reveal_strlit("4"); }
        "4"
    } else if d == 5 {
        proof { reveal_strlit("5"); }
        "5"
    } else if d == 6 {
        proof { reveal_strlit("6"); }
        "6"
    } else if d == 7 {
        proof { reveal_strlit("7"); }
        "7"
    } else if d == 8 {
        proof { reveal_strlit("8"); }
        "8"
    } else {
        proof { reveal_strlit("9"); }
        "9"
    }
}

/// The decimal rendering of `n`.
pub fn decimal_string(n: u64) -> (s: String)
    ensures
        s@ == decimal(n as nat),
    decreases n,
{
    if n < 10 {
        String::from_str(digit_text(n))
    } else {
        let mut s = decimal_string(n / 10);
        s.append(digit_text(n % 10));
        s
    }
}

/// `s` with every `/` replaced by `-`.
pub open spec fn slashes_to_dashes(s: Seq<char>) -> Seq<char> {
    s.map_values(|c: char| if c == '/' { '-' } else { c })
}

/// A text with its slashes replaced holds no slash, so it stands as one
/// segment of a path.
pub proof fn lemma_slashes_to_dashes_has_no_slash(s: Seq<char>)
    ensures
        !slashes_to_dashes(s).contains('/'),
        slashes_to_dashes(s).len() == s.len(),
{
    let t = slashes_to_dashes(s);
    assert forall|i: int| 0 <= i < t.len() implies t[i] != '/' by {
        assert(t[i] == if s[i] == '/' { '-' } else { s[i] });
    }
}

/// Rewriting slashes changes nothing but the slashes: every `/` becomes a
/// `-`, every other character stays where it was, and the length is kept.
pub proof fn lemma_slashes_to_dashes_changes_only_slashes(s: Seq<char>)
    ensures
        slashes_to_dashes(s).len() == s.len(),
        forall|i: int|
            0 <= i < s.len() ==> {
                &&& s[i] == '/' ==> #[trigger] slashes_to_dashes(s)[i] == '-'
                &&& s[i] != '/' ==> slashes_to_dashes(s)[i] == s[i]
            },
{
}

/// Replaces every `/` of `s` by `-`, so that the text can stand as one
/// segment of an etcd key path; every other character is kept in place.
pub fn replace_slashes(s: &String) -> (r: String)
    ensures
        r@ == slashes_to_dashes(s@),
        r@.len() == s@.len(),
        forall|i: int|
            0 <= i < s@.len() ==> {
                &&& s@[i] == '/' ==> #[trigger] r@[i] == '-'
                &&& s@[i] != '/' ==> r@[i] == s@[i]
            },
{
    proof {
        lemma_slashes_to_dashes_changes_only_slashes(s@);
    }
    let st = s.as_str();
    let n = st.unicode_len();
    let mut r = String::new();
    let mut i: usize = 0;
    while i < n
        invariant
            st@ == s@,
            n == s@.len(),
            i <= n,
            r@ == slashes_to_dashes(s@.take(i as int)),
        decreases n - i,
    {
        let c = st.get_char(i);
        if c == '/' {
            proof { reveal_strlit("-"); }
            r.append("-");
        } else {
            let piece = st.substring_char(i, i + 1);
            assert(piece@ =~= seq![c]);
            r.append(piece);
        }
        assert(slashes_to_dashes(s@.take(i + 1)) =~= slashes_to_dashes(s@.take(i as int)).push(
            if c == '/' { '-' } else { c },
        ));
        i = i + 1;
    }
    assert(s@.take(n as int) =~= s@);
    r
}

} // verus!
