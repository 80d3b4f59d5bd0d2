use vstd::prelude::*;
use vstd::string::StrSliceExecFns;

verus! {

// Peer filenames arrive as loosely formatted paths ("d1\\d2\\Artist - Album\\01 Track.flac").
// Matching normalizes them: ASCII letters are lowercased, ASCII punctuation and
// separators split the text into tokens, and anything beyond ASCII is kept verbatim.

/// Lowercases an ASCII letter and leaves every other character unchanged.
pub open spec fn to_lower(c: char) -> char {
    if 'A' <= c && c <= 'Z' {
        ((c as u32) + 32) as char
    } else {
        c
    }
}

/// A path separator, either direction of slash.
pub open spec fn is_sep(c: char) -> bool {
    c == '/' || c == '\\'
}

/// The normalized form of a character inside a token: its lowercase form if it
/// is a letter, digit or non-ASCII character, and nothing if it is punctuation,
/// whitespace or a separator.
pub open spec fn norm_char(c: char) -> Option<char> {
    let l = to_lower(c);
    if ('a' <= l && l <= 'z') || ('0' <= l && l <= '9') || (l as u32) > 127 {
        Some(l)
    } else {
        None
    }
}

/// Accumulator form of tokenization: `cur` is the token being built and `acc`
/// the tokens already finished.
pub open spec fn tokens_acc(s: Seq<char>, cur: Seq<char>, acc: Seq<Seq<char>>) -> Seq<Seq<char>>
    decreases s.len(),
{
    if s.len() == 0 {
        if cur.len() > 0 {
            acc.push(cur)
        } else {
            acc
        }
    } else {
        match norm_char(s[0]) {
            Some(l) => tokens_acc(s.drop_first(), cur.push(l), acc),
            None => tokens_acc(
                s.drop_first(),
                Seq::empty(),
                if cur.len() > 0 {
                    acc.push(cur)
                } else {
                    acc
                },
            ),
        }
    }
}

/// The normalized tokens of a string: maximal runs of normalized characters.
pub open spec fn tokens(s: Seq<char>) -> Seq<Seq<char>> {
    tokens_acc(s, Seq::empty(), Seq::empty())
}

/// Accumulator form of path splitting: separators end the current component,
/// empty components are dropped, all other characters are kept verbatim.
pub open spec fn comps_acc(s: Seq<char>, cur: Seq<char>, acc: Seq<Seq<char>>) -> Seq<Seq<char>>
    decreases s.len(),
{
    if s.len() == 0 {
        if cur.len() > 0 {
            acc.push(cur)
        } else {
            acc
        }
    } else {
        if is_sep(s[0]) {
            comps_acc(
                s.drop_first(),
                Seq::empty(),
                if cur.len() > 0 {
                    acc.push(cur)
                } else {
                    acc
                },
            )
        } else {
            comps_acc(s.drop_first(), cur.push(s[0]), acc)
        }
    }
}

/// The non-empty path components of a filename.
pub open spec fn components(s: Seq<char>) -> Seq<Seq<char>> {
    comps_acc(s, Seq::empty(), Seq::empty())
}

/// The index of the last `'.'` in `b`, or `-1` if there is none.
pub open spec fn last_dot(b: Seq<char>) -> int
    decreases b.len(),
{
    if b.len() == 0 {
        -1
    } else if b[b.len() - 1] == '.' {
        b.len() - 1
    } else {
        last_dot(b.drop_last())
    }
}

/// The final path component of a filename, empty if the path has none.
pub open spec fn basename_of(s: Seq<char>) -> Seq<char> {
    let cs = components(s);
    if cs.len() > 0 {
        cs.last()
    } else {
        Seq::empty()
    }
}

/// Pointwise lowercasing of a character sequence.
pub open spec fn lower_seq(s: Seq<char>) -> Seq<char> {
    Seq::new(s.len(), |i: int| to_lower(s[i]))
}

/// The lowercased extension of a filename: what follows the last `'.'` of its
/// basename, provided that dot is neither absent nor the basename's first
/// character (a leading dot marks a hidden file, not an extension).
pub open spec fn ext_of(s: Seq<char>) -> Option<Seq<char>> {
    let b = basename_of(s);
    let d = last_dot(b);
    if d >= 1 {
        Some(lower_seq(b.subrange(d + 1, b.len() as int)))
    } else {
        None
    }
}

/// The quality label of a filename: its lowercased extension, or `"unknown"`
/// when the basename has none.
pub open spec fn quality_of(s: Seq<char>) -> Seq<char> {
    match ext_of(s) {
        Some(e) => e,
        None => "unknown"@,
    }
}

/// The basename of a filename with its extension removed.
pub open spec fn stem_of(s: Seq<char>) -> Seq<char> {
    let b = basename_of(s);
    let d = last_dot(b);
    if d >= 1 {
        b.subrange(0, d)
    } else {
        b
    }
}

/// How many of the tokens in `exp` occur (verbatim) among the tokens in `cand`.
pub open spec fn hit_count(exp: Seq<Seq<char>>, cand: Seq<Seq<char>>) -> int
    decreases exp.len(),
{
    if exp.len() == 0 {
        0
    } else {
        hit_count(exp.drop_last(), cand) + if cand.contains(exp.last()) {
            1int
        } else {
            0int
        }
    }
}

/// Similarity of an expected name against a candidate token list, in
/// hundredths: the share of the expected tokens found verbatim among the
/// candidate tokens. An empty expectation is trivially satisfied.
pub open spec fn sim(exp: Seq<Seq<char>>, cand: Seq<Seq<char>>) -> int {
    if exp.len() == 0 {
        100
    } else {
        100 * hit_count(exp, cand) / exp.len() as int
    }
}

pub proof fn lemma_hit_count_bounds(exp: Seq<Seq<char>>, cand: Seq<Seq<char>>)
    ensures
        0 <= hit_count(exp, cand) <= exp.len(),
    decreases exp.len(),
{
    if exp.len() > 0 {
        lemma_hit_count_bounds(exp.drop_last(), cand);
    }
}

/// Similarity always lands in the score range.
pub proof fn lemma_sim_bounds(exp: Seq<Seq<char>>, cand: Seq<Seq<char>>)
    ensures
        0 <= sim(exp, cand) <= 100,
{
    if exp.len() > 0 {
        lemma_hit_count_bounds(exp, cand);
        assert(100 * hit_count(exp, cand) <= 100 * exp.len()) by (nonlinear_arith)
            requires hit_count(exp, cand) <= exp.len();
        assert(100 * hit_count(exp, cand) / exp.len() as int <= 100) by (nonlinear_arith)
            requires 100 * hit_count(exp, cand) <= 100 * exp.len() && exp.len() > 0;
        assert(100 * hit_count(exp, cand) / exp.len() as int >= 0) by (nonlinear_arith)
            requires 100 * hit_count(exp, cand) >= 0 && exp.len() > 0;
    }
}

/// The deep view of a vector of character vectors indexes to the inner views.
pub proof fn lemma_deep_view_chars(v: &Vec<Vec<char>>)
    ensures
        v.deep_view().len() == v@.len(),
        forall|i: int| 0 <= i < v@.len() ==> v.deep_view()[i] == v@[i]@,
{
    assert forall|i: int| 0 <= i < v@.len() implies v.deep_view()[i] == v@[i]@ by {
        assert(v@[i].deep_view() =~= v@[i]@);
    }
}

/// The deep view of a vector of strings indexes to the strings' views.
pub proof fn lemma_deep_view_strings(v: &Vec<String>)
    ensures
        v.deep_view().len() == v@.len(),
        forall|i: int| 0 <= i < v@.len() ==> v.deep_view()[i] == v@[i]@,
{
}

/// Relies on std's `String: FromIterator<char>`: collecting characters yields
/// the string made of exactly those characters, in order.
#[verifier::external_body]
pub fn string_from_chars(v: &Vec<char>) -> (r: String)
    ensures
        r@ == v@,
{
    v.iter().collect()
}

/// The characters of a string, in order.
pub fn char_vec(s: &str) -> (r: Vec<char>)
    ensures
        r@ == s@,
{
    let n: usize = s.unicode_len();
    let mut r: Vec<char> = Vec::new();
    let mut i: usize = 0;
    while i < n
        invariant
            i <= n,
            n == s@.len(),
            r@ == s@.subrange(0, i as int),
        decreases n - i,
    {
        let c = s.get_char(i);
        r.push(c);
        i = i + 1;
        assert(r@ =~= s@.subrange(0, i as int));
    }
    assert(r@ =~= s@);
    r
}

/// Lowercases an ASCII letter, leaving every other character unchanged.
pub fn lower_char(c: char) -> (r: char)
    ensures
        r == to_lower(c),
{
    match c {
        'A' => 'a',
        'B' => 'b',
        'C' => 'c',
        'D' => 'd',
        'E' => 'e',
        'F' => 'f',
        'G' => 'g',
        'H' => 'h',
        'I' => 'i',
        'J' => 'j',
        'K' => 'k',
        'L' => 'l',
        'M' => 'm',
        'N' => 'n',
        'O' => 'o',
        'P' => 'p',
        'Q' => 'q',
        'R' => 'r',
        'S' => 's',
        'T' => 't',
        'U' => 'u',
        'V' => 'v',
        'W' => 'w',
        'X' => 'x',
        'Y' => 'y',
        'Z' => 'z',
        _ => c,
    }
}

/// The normalized form of a character, as `norm_char` describes.
pub fn norm_char_exec(c: char) -> (r: Option<char>)
    ensures
        r == norm_char(c),
{
    let l = lower_char(c);
    let u = l as u32;
    if (97 <= u && u <= 122) || (48 <= u && u <= 57) || u > 127 {
        Some(l)
    } else {
        None
    }
}

/// Splits a string into its normalized tokens.
pub fn tokenize(s: &Vec<char>) -> (r: Vec<Vec<char>>)
    ensures
        r.deep_view() == tokens(s@),
{
    let n = s.len();
    let mut acc: Vec<Vec<char>> = Vec::new();
    let mut cur: Vec<char> = Vec::new();
    let mut i: usize = 0;
    assert(s@.subrange(0, n as int) =~= s@);
    assert(acc.deep_view() =~= Seq::<Seq<char>>::empty());
    while i < n
        invariant
            i <= n,
            n == s@.len(),
            tokens_acc(s@.subrange(i as int, n as int), cur@, acc.deep_view()) == tokens(s@),
        decreases n - i,
    {
        let ghost pre_rest = s@.subrange(i as int, n as int);
        let ghost pre_acc = acc.deep_view();
        assert(pre_rest[0] == s@[i as int]);
        assert(pre_rest.drop_first() =~= s@.subrange(i as int + 1, n as int));
        match norm_char_exec(s[i]) {
            Some(l) => {
                cur.push(l);
            },
            None => {
                if cur.len() > 0 {
                    acc.push(cur);
                    assert(acc.deep_view() =~~= pre_acc.push(acc@[acc@.len() - 1]@));
                }
                cur = Vec::new();
            },
        }
        i = i + 1;
    }
    if cur.len() > 0 {
        let ghost pre_acc = acc.deep_view();
        let ghost pre_cur = cur@;
        acc.push(cur);
        assert(acc.deep_view() =~~= pre_acc.push(pre_cur));
        assert(s@.subrange(n as int, n as int) =~= Seq::<char>::empty());
    } else {
        assert(s@.subrange(n as int, n as int) =~= Seq::<char>::empty());
    }
    acc
}

/// Splits a path into its non-empty components.
pub fn split_components(s: &Vec<char>) -> (r: Vec<Vec<char>>)
    ensures
        r.deep_view() == components(s@),
{
    let n = s.len();
    let mut acc: Vec<Vec<char>> = Vec::new();
    let mut cur: Vec<char> = Vec::new();
    let mut i: usize = 0;
    assert(s@.subrange(0, n as int) =~= s@);
    assert(acc.deep_view() =~= Seq::<Seq<char>>::empty());
    while i < n
        invariant
            i <= n,
            n == s@.len(),
            comps_acc(s@.subrange(i as int, n as int), cur@, acc.deep_view()) == components(s@),
        decreases n - i,
    {
        let ghost pre_rest = s@.subrange(i as int, n as int);
        let ghost pre_acc = acc.deep_view();
        assert(pre_rest[0] == s@[i as int]);
        assert(pre_rest.drop_first() =~= s@.subrange(i as int + 1, n as int));
        let c = s[i];
        if c == '/' || c == '\\' {
            if cur.len() > 0 {
                acc.push(cur);
                assert(acc.deep_view() =~~= pre_acc.push(acc@[acc@.len() - 1]@));
            }
            cur = Vec::new();
        } else {
            cur.push(c);
        }
        i = i + 1;
    }
    if cur.len() > 0 {
        let ghost pre_acc = acc.deep_view();
        let ghost pre_cur = cur@;
        acc.push(cur);
        assert(acc.deep_view() =~~= pre_acc.push(pre_cur));
        assert(s@.subrange(n as int, n as int) =~= Seq::<char>::empty());
    } else {
        assert(s@.subrange(n as int, n as int) =~= Seq::<char>::empty());
    }
    acc
}

proof fn lemma_last_dot_at(b: Seq<char>, k: int)
    requires
        0 <= k < b.len(),
        b[k] == '.',
        forall|m: int| k < m < b.len() ==> b[m] != '.',
    ensures
        last_dot(b) == k,
    decreases b.len(),
{
    if k < b.len() - 1 {
        assert(b[b.len() - 1] != '.');
        assert(b.drop_last()[k] == '.');
        lemma_last_dot_at(b.drop_last(), k);
    }
}

proof fn lemma_last_dot_none(b: Seq<char>)
    requires
        forall|m: int| 0 <= m < b.len() ==> b[m] != '.',
    ensures
        last_dot(b) == -1,
    decreases b.len(),
{
    if b.len() > 0 {
        lemma_last_dot_none(b.drop_last());
    }
}

/// The index of the last `'.'` of a character vector, if it has one.
pub fn find_last_dot(b: &Vec<char>) -> (r: Option<usize>)
    ensures
        match r {
            Some(k) => last_dot(b@) == k && k < b@.len(),
            None => last_dot(b@) == -1,
        },
{
    let mut j: usize = b.len();
    while j > 0
        invariant
            j <= b@.len(),
            forall|m: int| j <= m < b@.len() ==> b@[m] != '.',
        decreases j,
    {
        if b[j - 1] == '.' {
            proof {
                lemma_last_dot_at(b@, j - 1);
            }
            return Some(j - 1);
        }
        j = j - 1;
    }
    proof {
        lemma_last_dot_none(b@);
    }
    None
}

/// The lowercased extension of a filename, if its basename has one.
pub fn extension_chars(filename: &str) -> (r: Option<Vec<char>>)
    ensures
        match r {
            Some(v) => ext_of(filename@) == Some(v@),
            None => ext_of(filename@) is None,
        },
{
    let cv = char_vec(filename);
    let comps = split_components(&cv);
    proof {
        lemma_deep_view_chars(&comps);
    }
    if comps.len() == 0 {
        assert(basename_of(filename@) =~= Seq::<char>::empty());
        return None;
    }
    let b = &comps[comps.len() - 1];
    assert(b@ == basename_of(filename@));
    let blen: usize = b.len();
    match find_last_dot(b) {
        Some(k) => {
            assert(k < blen);
            if k >= 1 {
                let mut v: Vec<char> = Vec::new();
                let mut i: usize = k + 1;
                while i < b.len()
                    invariant
                        k + 1 <= i <= b@.len(),
                        k + 1 <= b@.len(),
                        v@.len() == i - (k + 1),
                        forall|m: int| 0 <= m < v@.len() ==> v@[m] == to_lower(b@[k + 1 + m]),
                    decreases b@.len() - i,
                {
                    let c = lower_char(b[i]);
                    v.push(c);
                    i = i + 1;
                }
                assert(v@ =~= lower_seq(b@.subrange(k as int + 1, b@.len() as int)));
                Some(v)
            } else {
                None
            }
        },
        None => None,
    }
}

/// The basename of a filename with any extension removed.
pub fn stem_chars(filename: &str) -> (r: Vec<char>)
    ensures
        r@ == stem_of(filename@),
{
    let cv = char_vec(filename);
    let comps = split_components(&cv);
    proof {
        lemma_deep_view_chars(&comps);
    }
    if comps.len() == 0 {
        assert(basename_of(filename@) =~= Seq::<char>::empty());
        let r: Vec<char> = Vec::new();
        assert(r@ =~= stem_of(filename@));
        return r;
    }
    let b = &comps[comps.len() - 1];
    assert(b@ == basename_of(filename@));
    let upto: usize = match find_last_dot(b) {
        Some(k) => {
            if k >= 1 {
                k
            } else {
                b.len()
            }
        },
        None => b.len(),
    };
    let mut r: Vec<char> = Vec::new();
    let mut i: usize = 0;
    while i < upto
        invariant
            i <= upto <= b@.len(),
            r@ == b@.subrange(0, i as int),
        decreases upto - i,
    {
        let c = b[i];
        r.push(c);
        i = i + 1;
        assert(r@ =~= b@.subrange(0, i as int));
    }
    assert(b@.subrange(0, b@.len() as int) =~= b@);
    r
}

/// Character-vector equality, decided by content.
pub fn chars_eq(a: &Vec<char>, b: &Vec<char>) -> (r: bool)
    ensures
        r == (a@ == b@),
{
    if a.len() != b.len() {
        return false;
    }
    let mut i: usize = 0;
    while i < a.len()
        invariant
            i <= a@.len(),
            a@.len() == b@.len(),
            forall|j: int| 0 <= j < i ==> a@[j] == b@[j],
        decreases a@.len() - i,
    {
        if a[i] != b[i] {
            return false;
        }
        i = i + 1;
    }
    assert(a@ =~= b@);
    true
}

/// Compares a character vector against a string slice's characters.
pub fn chars_eq_str(a: &Vec<char>, s: &str) -> (r: bool)
    ensures
        r == (a@ == s@),
{
    let n: usize = s.unicode_len();
    if a.len() != n {
        return false;
    }
    let mut i: usize = 0;
    while i < n
        invariant
            i <= n,
            n == s@.len(),
            a@.len() == n,
            forall|j: int| 0 <= j < i ==> a@[j] == s@[j],
        decreases n - i,
    {
        if a[i] != s.get_char(i) {
            return false;
        }
        i = i + 1;
    }
    assert(a@ =~= s@);
    true
}

/// String equality, decided by content.
pub fn string_eq(a: &String, b: &String) -> (r: bool)
    ensures
        r == (a@ == b@),
{
    a.eq(b)
}

/// Whether a token occurs verbatim in a token list.
pub fn contains_token(ts: &Vec<Vec<char>>, t: &Vec<char>) -> (r: bool)
    ensures
        r == ts.deep_view().contains(t@),
{
    proof {
        lemma_deep_view_chars(ts);
    }
    let mut i: usize = 0;
    while i < ts.len()
        invariant
            i <= ts@.len(),
            ts.deep_view().len() == ts@.len(),
            forall|j: int| 0 <= j < ts@.len() ==> ts.deep_view()[j] == ts@[j]@,
            forall|j: int| 0 <= j < i ==> ts.deep_view()[j] != t@,
        decreases ts@.len() - i,
    {
        if chars_eq(&ts[i], t) {
            assert(ts.deep_view()[i as int] == t@);
            return true;
        }
        i = i + 1;
    }
    assert(forall|j: int| 0 <= j < ts.deep_view().len() ==> ts.deep_view()[j] != t@);
    false
}

/// Similarity of an expected token list against candidate tokens, per `sim`.
pub fn similarity(exp: &Vec<Vec<char>>, cand: &Vec<Vec<char>>) -> (r: i64)
    ensures
        r == sim(exp.deep_view(), cand.deep_view()),
        0 <= r <= 100,
{
    proof {
        lemma_deep_view_chars(exp);
        lemma_sim_bounds(exp.deep_view(), cand.deep_view());
    }
    let n = exp.len();
    if n == 0 {
        return 100;
    }
    let mut hits: usize = 0;
    let mut i: usize = 0;
    while i < n
        invariant
            i <= n,
            n == exp@.len(),
            exp.deep_view().len() == exp@.len(),
            forall|j: int| 0 <= j < exp@.len() ==> exp.deep_view()[j] == exp@[j]@,
            hits <= i,
            hits == hit_count(exp.deep_view().subrange(0, i as int), cand.deep_view()),
        decreases n - i,
    {
        let ghost pre = exp.deep_view().subrange(0, i as int);
        assert(exp.deep_view().subrange(0, i as int + 1).drop_last() =~= pre);
        assert(exp.deep_view().subrange(0, i as int + 1).last() == exp.deep_view()[i as int]);
        if contains_token(cand, &exp[i]) {
            hits = hits + 1;
        }
        i = i + 1;
    }
    assert(exp.deep_view().subrange(0, n as int) =~= exp.deep_view());
    let num: u128 = 100u128 * (hits as u128);
    let den: u128 = n as u128;
    let q: u128 = num / den;
    proof {
        lemma_hit_count_bounds(exp.deep_view(), cand.deep_view());
        assert(q <= 100) by (nonlinear_arith)
            requires
                q == num / den,
                num <= 100 * den,
                den > 0;
    }
    q as i64
}

} // verus!
