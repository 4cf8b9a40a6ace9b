//! Text helpers: what trimming, case folding, prefix tests and decimal printing
//! mean on the characters of a string, and executable functions that do them.
use vstd::prelude::*;

verus! {

/// `String::push` appends one character to the end of the string.
pub assume_specification[ String::push ](s: &mut String, c: char)
    ensures
        final(s)@ == old(s)@.push(c),
;

/// The Unicode `White_Space` characters.
pub open spec fn white(c: char) -> bool {
    let n = c as u32;
    ||| 0x09 <= n <= 0x0d
    ||| n == 0x20
    ||| n == 0x85
    ||| n == 0xa0
    ||| n == 0x1680
    ||| 0x2000 <= n <= 0x200a
    ||| n == 0x2028
    ||| n == 0x2029
    ||| n == 0x202f
    ||| n == 0x205f
    ||| n == 0x3000
}

/// Every character is white space (in particular: there is none).
pub open spec fn blank(s: Seq<char>) -> bool {
    forall|i: int| 0 <= i < s.len() ==> white(#[trigger] s[i])
}

pub open spec fn trim_start_of(s: Seq<char>) -> Seq<char>
    decreases s.len(),
{
    if s.len() > 0 && white(s[0]) {
        trim_start_of(s.drop_first())
    } else {
        s
    }
}

pub open spec fn trim_end_of(s: Seq<char>) -> Seq<char>
    decreases s.len(),
{
    if s.len() > 0 && white(s.last()) {
        trim_end_of(s.drop_last())
    } else {
        s
    }
}

/// The text without its leading and trailing white space.
pub open spec fn trim_of(s: Seq<char>) -> Seq<char> {
    trim_end_of(trim_start_of(s))
}

/// One ASCII capital becomes its small letter; every other character stays.
pub open spec fn lower_char(c: char) -> char {
    if 'A' <= c && c <= 'Z' {
        ((c as u32 + 32) as u32) as char
    } else {
        c
    }
}

pub open spec fn lower_of(s: Seq<char>) -> Seq<char> {
    s.map_values(|c: char| lower_char(c))
}

/// One ASCII small letter becomes its capital; every other character stays.
pub open spec fn upper_char(c: char) -> char {
    if 'a' <= c && c <= 'z' {
        ((c as u32 - 32) as u32) as char
    } else {
        c
    }
}

pub open spec fn upper_of(s: Seq<char>) -> Seq<char> {
    s.map_values(|c: char| upper_char(c))
}

/// The text with every occurrence of `p`, from the left and without overlap,
/// replaced by `r`. `p` is not empty.
pub open spec fn replaced(s: Seq<char>, p: Seq<char>, r: Seq<char>) -> Seq<char>
    decreases s.len(),
{
    if s.len() == 0 || p.len() == 0 {
        s
    } else if p.is_prefix_of(s) {
        r + replaced(s.skip(p.len() as int), p, r)
    } else {
        seq![s[0]] + replaced(s.drop_first(), p, r)
    }
}

pub open spec fn digit(n: nat) -> char {
    ((48 + n) as u32) as char
}

/// The decimal digits of a natural number, most significant first.
pub open spec fn decimal_of(n: nat) -> Seq<char>
    decreases n,
{
    if n < 10 {
        seq![digit(n)]
    } else {
        decimal_of(n / 10).push(digit(n % 10))
    }
}

/// The views of a sequence of strings.
pub open spec fn texts(s: Seq<String>) -> Seq<Seq<char>> {
    s.map_values(|t: String| t@)
}

/// A text or a complaint, as the characters it holds.
pub open spec fn outcome_text(r: Result<String, String>) -> Result<Seq<char>, Seq<char>> {
    match r {
        Ok(t) => Ok(t@),
        Err(e) => Err(e@),
    }
}

pub open spec fn opt_text(o: Option<String>) -> Option<Seq<char>> {
    match o {
        Some(s) => Some(s@),
        None => None,
    }
}

/// `c` occurs in `s` and not after index `i`.
pub open spec fn last_at(s: Seq<char>, c: char, i: int) -> bool {
    0 <= i < s.len() && s[i] == c && forall|j: int| i < j < s.len() ==> s[j] != c
}

/// What stands behind the last `c`, where `c` occurs.
pub open spec fn after_last_of(s: Seq<char>, c: char) -> Option<Seq<char>>
    decreases s.len(),
{
    if s.len() == 0 {
        None
    } else if s.last() == c {
        Some(Seq::empty())
    } else {
        match after_last_of(s.drop_last(), c) {
            Some(t) => Some(t.push(s.last())),
            None => None,
        }
    }
}

pub open spec fn occurs_at(s: Seq<char>, p: Seq<char>, i: int) -> bool {
    0 <= i && i + p.len() <= s.len() && s.subrange(i, i + p.len()) == p
}

pub open spec fn has_text(s: Seq<char>, p: Seq<char>) -> bool {
    exists|i: int| occurs_at(s, p, i)
}

/// The pieces between the occurrences of `c`; always at least one.
pub open spec fn split_of(s: Seq<char>, c: char) -> Seq<Seq<char>>
    decreases s.len(),
{
    if s.len() == 0 {
        seq![Seq::empty()]
    } else {
        let p = split_of(s.drop_last(), c);
        if s.last() == c {
            p.push(Seq::empty())
        } else {
            p.drop_last().push(p.last().push(s.last()))
        }
    }
}

/// What stands before and behind the first `c`, where `c` occurs.
pub open spec fn split_once_of(s: Seq<char>, c: char) -> Option<(Seq<char>, Seq<char>)> {
    if s.contains(c) {
        let i = s.index_of_first(c)->0;
        Some((s.take(i), s.skip(i + 1)))
    } else {
        None
    }
}

pub proof fn lemma_first_index(s: Seq<char>, c: char, i: int)
    requires
        0 <= i < s.len(),
        s[i] == c,
        forall|j: int| 0 <= j < i ==> s[j] != c,
    ensures
        s.contains(c),
        s.index_of_first(c) == Some(i),
{
    s.index_of_first_ensures(c);
}

pub proof fn lemma_trim_start(s: Seq<char>, k: int)
    requires
        0 <= k <= s.len(),
        forall|i: int| 0 <= i < k ==> white(#[trigger] s[i]),
        k < s.len() ==> !white(s[k]),
    ensures
        trim_start_of(s) == s.skip(k),
    decreases s.len(),
{
    if k == 0 {
        assert(s.skip(0) =~= s);
    } else {
        lemma_trim_start(s.drop_first(), k - 1);
        assert(s.drop_first().skip(k - 1) =~= s.skip(k));
    }
}

pub proof fn lemma_trim_end(s: Seq<char>, k: int)
    requires
        0 <= k <= s.len(),
        forall|i: int| k <= i < s.len() ==> white(#[trigger] s[i]),
        k > 0 ==> !white(s[k - 1]),
    ensures
        trim_end_of(s) == s.take(k),
    decreases s.len(),
{
    if k == s.len() {
        assert(s.take(k) =~= s);
    } else {
        lemma_trim_end(s.drop_last(), k);
        assert(s.drop_last().take(k) =~= s.take(k));
    }
}

/// Where trimming starts and ends.
pub proof fn lemma_trim_bounds(s: Seq<char>) -> (r: (int, int))
    ensures
        0 <= r.0 <= r.1 <= s.len(),
        trim_of(s) == s.subrange(r.0, r.1),
        forall|i: int| 0 <= i < r.0 ==> white(#[trigger] s[i]),
        forall|i: int| r.1 <= i < s.len() ==> white(#[trigger] s[i]),
        r.0 < r.1 ==> !white(s[r.0]) && !white(s[r.1 - 1]),
        r.0 == r.1 ==> blank(s),
{
    let a = first_solid(s);
    lemma_first_solid(s);
    lemma_trim_start(s, a);
    let t = s.skip(a);
    let b = past_last_solid(t);
    lemma_past_last_solid(t);
    lemma_trim_end(t, b);
    assert(t.take(b) =~= s.subrange(a, a + b));
    assert forall|i: int| a + b <= i < s.len() implies white(#[trigger] s[i]) by {
        assert(t[i - a] == s[i]);
    }
    if b > 0 {
        assert(t[0] == s[a]);
        assert(t[b - 1] == s[a + b - 1]);
    } else {
        assert forall|i: int| 0 <= i < s.len() implies white(#[trigger] s[i]) by {
            if i >= a {
                assert(t[i - a] == s[i]);
            }
        }
    }
    (a, a + b)
}

spec fn first_solid(s: Seq<char>) -> int
    decreases s.len(),
{
    if s.len() > 0 && white(s[0]) {
        1 + first_solid(s.drop_first())
    } else {
        0
    }
}

proof fn lemma_first_solid(s: Seq<char>)
    ensures
        0 <= first_solid(s) <= s.len(),
        forall|i: int| 0 <= i < first_solid(s) ==> white(#[trigger] s[i]),
        first_solid(s) < s.len() ==> !white(s[first_solid(s)]),
    decreases s.len(),
{
    if s.len() > 0 && white(s[0]) {
        let t = s.drop_first();
        lemma_first_solid(t);
        assert forall|i: int| 0 <= i < first_solid(s) implies white(#[trigger] s[i]) by {
            if i > 0 {
                assert(t[i - 1] == s[i]);
            }
        }
        if first_solid(s) < s.len() {
            assert(t[first_solid(t)] == s[first_solid(s)]);
        }
    }
}

spec fn past_last_solid(s: Seq<char>) -> int
    decreases s.len(),
{
    if s.len() > 0 && white(s.last()) {
        past_last_solid(s.drop_last())
    } else {
        s.len() as int
    }
}

proof fn lemma_past_last_solid(s: Seq<char>)
    ensures
        0 <= past_last_solid(s) <= s.len(),
        forall|i: int| past_last_solid(s) <= i < s.len() ==> white(#[trigger] s[i]),
        past_last_solid(s) > 0 ==> !white(s[past_last_solid(s) - 1]),
    decreases s.len(),
{
    if s.len() > 0 && white(s.last()) {
        let t = s.drop_last();
        lemma_past_last_solid(t);
        assert forall|i: int| past_last_solid(s) <= i < s.len() implies white(
            #[trigger] s[i],
        ) by {
            if i < s.len() - 1 {
                assert(t[i] == s[i]);
            }
        }
    }
}

/// Trimming leaves nothing of a text exactly when it is blank.
pub proof fn trim_empties_only_blank_text(s: Seq<char>)
    ensures
        trim_of(s).len() == 0 <==> blank(s),
{
    let r = lemma_trim_bounds(s);
    if blank(s) && r.0 < r.1 {
        assert(white(s[r.0]));
    }
}

/// Trimming twice is trimming once.
pub proof fn trim_is_idempotent(s: Seq<char>)
    ensures
        trim_of(trim_of(s)) == trim_of(s),
{
    let r = lemma_trim_bounds(s);
    let t = trim_of(s);
    if t.len() > 0 {
        assert(t[0] == s[r.0]);
        assert(t.last() == s[r.1 - 1]);
    }
}

pub proof fn lemma_decimal_chars(n: nat)
    ensures
        decimal_of(n).len() > 0,
        forall|i: int|
            0 <= i < decimal_of(n).len() ==> '0' <= #[trigger] decimal_of(n)[i] && decimal_of(n)[i]
                <= '9',
    decreases n,
{
    if n >= 10 {
        lemma_decimal_chars(n / 10);
    }
}

/// Two naturals with the same digits are the same natural.
pub proof fn decimal_is_injective(a: nat, b: nat)
    requires
        decimal_of(a) == decimal_of(b),
    ensures
        a == b,
    decreases a,
{
    lemma_decimal_chars(a / 10);
    lemma_decimal_chars(b / 10);
    assert(decimal_of(a).last() == digit(a % 10));
    assert(decimal_of(b).last() == digit(b % 10));
    if a >= 10 && b >= 10 {
        assert(decimal_of(a).drop_last() =~= decimal_of(a / 10));
        assert(decimal_of(b).drop_last() =~= decimal_of(b / 10));
        decimal_is_injective(a / 10, b / 10);
    } else if a >= 10 {
        assert(decimal_of(a).len() > 1);
    } else if b >= 10 {
        assert(decimal_of(b).len() > 1);
    }
}

pub proof fn lemma_after_last(s: Seq<char>, c: char, i: int)
    requires
        last_at(s, c, i),
    ensures
        after_last_of(s, c) == Some(s.skip(i + 1)),
    decreases s.len(),
{
    if s.last() == c {
        assert(i == s.len() - 1);
        assert(s.skip(i + 1) =~= Seq::<char>::empty());
    } else {
        assert(last_at(s.drop_last(), c, i));
        lemma_after_last(s.drop_last(), c, i);
        assert(s.drop_last().skip(i + 1).push(s.last()) =~= s.skip(i + 1));
    }
}

pub proof fn lemma_no_last(s: Seq<char>, c: char)
    requires
        !s.contains(c),
    ensures
        after_last_of(s, c) is None,
    decreases s.len(),
{
    if s.len() > 0 {
        assert(s.contains(s.last()));
        assert forall|x: char| s.drop_last().contains(x) implies s.contains(x) by {
            let k = choose|k: int| 0 <= k < s.len() - 1 && s.drop_last()[k] == x;
            assert(s[k] == x);
        }
        lemma_no_last(s.drop_last(), c);
    }
}

pub fn chars_of(s: &str) -> (v: Vec<char>)
    ensures
        v@ == s@,
{
    let mut v: Vec<char> = Vec::new();
    for c in it: s.chars()
        invariant
            it.seq() == s@,
            v@ == s@.take(it.index() as int),
    {
        proof {
            assert(s@.take(it.index() as int + 1) =~= s@.take(it.index() as int).push(
                s@[it.index() as int],
            ));
        }
        v.push(c);
    }
    proof {
        assert(s@.take(s@.len() as int) =~= s@);
    }
    v
}

pub fn string_of(v: &Vec<char>) -> (s: String)
    ensures
        s@ == v@,
{
    let mut s: String = String::new();
    let mut i: usize = 0;
    while i < v.len()
        invariant
            i <= v.len(),
            s@ == v@.take(i as int),
        decreases v.len() - i,
    {
        proof {
            assert(v@.take(i as int + 1) =~= v@.take(i as int).push(v@[i as int]));
        }
        s.push(v[i]);
        i = i + 1;
    }
    proof {
        assert(v@.take(v@.len() as int) =~= v@);
    }
    s
}

pub fn text_eq(a: &str, b: &str) -> (r: bool)
    ensures
        r == (a@ == b@),
{
    a.to_owned() == b.to_owned()
}

pub fn is_white(c: char) -> (r: bool)
    ensures
        r == white(c),
{
    let n: u32 = c as u32;
    (0x09 <= n && n <= 0x0d) || n == 0x20 || n == 0x85 || n == 0xa0 || n == 0x1680 || (0x2000 <= n
        && n <= 0x200a) || n == 0x2028 || n == 0x2029 || n == 0x202f || n == 0x205f || n == 0x3000
}

pub fn is_blank(s: &str) -> (r: bool)
    ensures
        r == blank(s@),
        r == (trim_of(s@).len() == 0),
{
    proof {
        trim_empties_only_blank_text(s@);
    }
    let v = chars_of(s);
    let mut i: usize = 0;
    while i < v.len()
        invariant
            i <= v.len(),
            v@ == s@,
            trim_of(s@).len() == 0 <==> blank(s@),
            forall|j: int| 0 <= j < i ==> white(#[trigger] s@[j]),
        decreases v.len() - i,
    {
        if !is_white(v[i]) {
            return false;
        }
        i = i + 1;
    }
    true
}

pub fn trim(s: &str) -> (r: &str)
    ensures
        r@ == trim_of(s@),
{
    let v = chars_of(s);
    let mut a: usize = 0;
    while a < v.len() && is_white(v[a])
        invariant
            a <= v.len(),
            v@ == s@,
            forall|j: int| 0 <= j < a ==> white(#[trigger] s@[j]),
        decreases v.len() - a,
    {
        a = a + 1;
    }
    let mut b: usize = v.len();
    while b > a && is_white(v[b - 1])
        invariant
            a <= b <= v.len(),
            v@ == s@,
            forall|j: int| b <= j < v.len() ==> white(#[trigger] s@[j]),
        decreases b,
    {
        b = b - 1;
    }
    proof {
        lemma_trim_start(s@, a as int);
        let t = s@.skip(a as int);
        assert forall|i: int| b - a <= i < t.len() implies white(#[trigger] t[i]) by {
            assert(t[i] == s@[i + a]);
        }
        if b > a {
            assert(t[b - a - 1] == s@[b - 1]);
        }
        lemma_trim_end(t, b - a);
        assert(t.take(b - a) =~= s@.subrange(a as int, b as int));
    }
    s.substring_char(a, b)
}

/// The first index at or after `from` at which `c` stands.
pub fn find_char(v: &Vec<char>, from: usize, c: char) -> (r: Option<usize>)
    requires
        from <= v.len(),
    ensures
        match r {
            Some(i) => {
                &&& from <= i < v.len()
                &&& v@[i as int] == c
                &&& forall|j: int| from <= j < i ==> v@[j] != c
            },
            None => forall|j: int| from <= j < v.len() ==> v@[j] != c,
        },
{
    let mut i: usize = from;
    while i < v.len()
        invariant
            from <= i <= v.len(),
            forall|j: int| from <= j < i ==> v@[j] != c,
        decreases v.len() - i,
    {
        if v[i] == c {
            return Some(i);
        }
        i = i + 1;
    }
    None
}

/// Split at the first `c`.
pub fn split_once(s: &str, c: char) -> (r: Option<(&str, &str)>)
    ensures
        match r {
            Some((a, b)) => split_once_of(s@, c) == Some((a@, b@)),
            None => split_once_of(s@, c) is None,
        },
{
    let v = chars_of(s);
    match find_char(&v, 0, c) {
        Some(i) => {
            proof {
                lemma_first_index(s@, c, i as int);
                assert(s@.take(i as int) =~= s@.subrange(0, i as int));
                assert(s@.skip(i as int + 1) =~= s@.subrange(i as int + 1, s@.len() as int));
            }
            Some((s.substring_char(0, i), s.substring_char(i + 1, v.len())))
        },
        None => None,
    }
}

/// Split at every `c`.
pub fn split(s: &str, c: char) -> (r: Vec<String>)
    ensures
        texts(r@) == split_of(s@, c),
{
    let v = chars_of(s);
    let mut done: Vec<String> = Vec::new();
    let mut last: String = String::new();
    let mut i: usize = 0;
    assert(v@.take(0) =~= Seq::<char>::empty());
    assert(texts(done@).push(last@) =~= split_of(v@.take(0), c));
    while i < v.len()
        invariant
            i <= v.len(),
            v@ == s@,
            texts(done@).push(last@) == split_of(v@.take(i as int), c),
        decreases v.len() - i,
    {
        proof {
            assert(v@.take(i as int + 1).drop_last() =~= v@.take(i as int));
            assert(v@.take(i as int + 1).last() == v@[i as int]);
        }
        let ghost p = split_of(v@.take(i as int), c);
        assert(p.drop_last() =~= texts(done@));
        assert(p.last() == last@);
        if v[i] == c {
            let ghost before = done@;
            let ghost piece = last@;
            done.push(last);
            last = String::new();
            assert(texts(done@) =~= texts(before).push(piece));
            assert(texts(done@).push(last@) =~= p.push(Seq::empty()));
        } else {
            last.push(v[i]);
        }
        i = i + 1;
    }
    assert(v@.take(v@.len() as int) =~= v@);
    let ghost before = done@;
    done.push(last);
    assert(texts(done@) =~= texts(before).push(last@));
    done
}

pub fn starts_with(s: &str, p: &str) -> (r: bool)
    ensures
        r == p@.is_prefix_of(s@),
{
    let v = chars_of(s);
    let w = chars_of(p);
    if w.len() > v.len() {
        return false;
    }
    let mut i: usize = 0;
    while i < w.len()
        invariant
            i <= w.len() <= v.len(),
            v@ == s@,
            w@ == p@,
            forall|j: int| 0 <= j < i ==> v@[j] == w@[j],
        decreases w.len() - i,
    {
        if v[i] != w[i] {
            assert(s@.take(p@.len() as int)[i as int] != p@[i as int]);
            return false;
        }
        i = i + 1;
    }
    assert(s@.subrange(0, p@.len() as int) =~= p@);
    true
}

pub fn to_lower(s: &str) -> (r: String)
    ensures
        r@ == lower_of(s@),
{
    let v = chars_of(s);
    let mut r: String = String::new();
    let mut i: usize = 0;
    while i < v.len()
        invariant
            i <= v.len(),
            v@ == s@,
            r@ == lower_of(s@).take(i as int),
        decreases v.len() - i,
    {
        let c = v[i];
        let d: char = if 'A' <= c && c <= 'Z' {
            ((c as u8) + 32) as char
        } else {
            c
        };
        proof {
            assert(lower_of(s@).take(i as int + 1) =~= lower_of(s@).take(i as int).push(
                lower_char(c),
            ));
        }
        r.push(d);
        i = i + 1;
    }
    proof {
        assert(lower_of(s@).take(v@.len() as int) =~= lower_of(s@));
    }
    r
}

pub fn to_upper(s: &str) -> (r: String)
    ensures
        r@ == upper_of(s@),
{
    let v = chars_of(s);
    let mut r: String = String::new();
    let mut i: usize = 0;
    while i < v.len()
        invariant
            i <= v.len(),
            v@ == s@,
            r@ == upper_of(s@).take(i as int),
        decreases v.len() - i,
    {
        let c = v[i];
        let d: char = if 'a' <= c && c <= 'z' {
            ((c as u8) - 32) as char
        } else {
            c
        };
        proof {
            assert(upper_of(s@).take(i as int + 1) =~= upper_of(s@).take(i as int).push(
                upper_char(c),
            ));
        }
        r.push(d);
        i = i + 1;
    }
    proof {
        assert(upper_of(s@).take(v@.len() as int) =~= upper_of(s@));
    }
    r
}

/// Replace every occurrence of `p`, from the left and without overlap.
pub fn replace_all(s: &str, p: &str, r: &str) -> (t: String)
    requires
        p@.len() > 0,
    ensures
        t@ == replaced(s@, p@, r@),
{
    let v = chars_of(s);
    let w = chars_of(p);
    let mut t: String = String::new();
    let mut i: usize = 0;
    assert(v@.skip(0) =~= v@);
    assert(t@ + replaced(v@.skip(0), p@, r@) =~= replaced(s@, p@, r@));
    while i < v.len()
        invariant
            i <= v.len(),
            v@ == s@,
            w@ == p@,
            p@.len() > 0,
            t@ + replaced(v@.skip(i as int), p@, r@) == replaced(s@, p@, r@),
        decreases v.len() - i,
    {
        let ghost rest = v@.skip(i as int);
        let ghost before = t@;
        let found = w.len() <= v.len() - i && matches_at(&v, &w, i);
        proof {
            assert(rest.len() == v.len() - i);
            if w.len() <= v.len() - i {
                assert(rest.subrange(0, p@.len() as int) =~= v@.subrange(
                    i as int,
                    i + p@.len(),
                ));
            }
            assert(found == p@.is_prefix_of(rest));
        }
        if found {
            t.append(r);
            i = i + w.len();
            proof {
                assert(rest.skip(p@.len() as int) =~= v@.skip(i as int));
                assert(t@ + replaced(v@.skip(i as int), p@, r@) =~= before + (r@ + replaced(
                    v@.skip(i as int),
                    p@,
                    r@,
                )));
            }
        } else {
            t.push(v[i]);
            proof {
                assert(rest.drop_first() =~= v@.skip(i as int + 1));
                assert(rest[0] == v@[i as int]);
                assert(t@ + replaced(v@.skip(i as int + 1), p@, r@) =~= before + (seq![rest[0]]
                    + replaced(v@.skip(i as int + 1), p@, r@)));
            }
            i = i + 1;
        }
    }
    assert(v@.skip(i as int) =~= Seq::<char>::empty());
    assert(t@ + replaced(v@.skip(i as int), p@, r@) =~= t@);
    t
}

/// Where the pattern shares no character with what replaces it, no occurrence of
/// it is left.
pub proof fn nothing_replaced_is_left(s: Seq<char>, p: Seq<char>, r: Seq<char>)
    requires
        p.len() > 0,
        forall|i: int| 0 <= i < p.len() ==> !r.contains(#[trigger] p[i]),
        r.len() > 0,
    ensures
        !has_text(replaced(s, p, r), p),
{
    assert forall|i: int| !occurs_at(replaced(s, p, r), p, i) by {
        lemma_no_occurrence(s, p, r, i);
    }
}

/// A stretch of the outcome that spells part of the pattern was in the text.
proof fn lemma_replaced_middle(s: Seq<char>, p: Seq<char>, r: Seq<char>, a: int, b: int)
    requires
        p.len() > 0,
        r.len() > 0,
        forall|i: int| 0 <= i < p.len() ==> !r.contains(#[trigger] p[i]),
        0 <= a < b <= p.len(),
        b - a <= replaced(s, p, r).len(),
        forall|j: int| 0 <= j < b - a ==> #[trigger] replaced(s, p, r)[j] == p[a + j],
    ensures
        b - a <= s.len(),
        s.take(b - a) == p.subrange(a, b),
    decreases b - a,
{
    let t = replaced(s, p, r);
    assert(t[0] == p[a + 0]);
    if s.len() == 0 {
        assert(t.len() == 0);
    } else if p.is_prefix_of(s) {
        assert(t[0] == r[0]);
        assert(r.contains(r[0]));
    } else {
        let rest = s.drop_first();
        assert(t[0] == s[0]);
        if b - a > 1 {
            let u = replaced(rest, p, r);
            assert(t =~= seq![s[0]] + u);
            assert forall|j: int| 0 <= j < b - (a + 1) implies #[trigger] u[j] == p[a + 1 + j] by {
                assert(t[j + 1] == u[j]);
                assert(t[j + 1] == p[a + (j + 1)]);
            }
            lemma_replaced_middle(rest, p, r, a + 1, b);
            assert forall|j: int| 0 <= j < b - a implies s[j] == p[a + j] by {
                if j > 0 {
                    assert(rest[j - 1] == s[j]);
                    assert(rest.take(b - a - 1)[j - 1] == p.subrange(a + 1, b)[j - 1]);
                }
            }
        }
        assert(s.take(b - a) =~= p.subrange(a, b));
    }
}

proof fn lemma_no_occurrence(s: Seq<char>, p: Seq<char>, r: Seq<char>, i: int)
    requires
        p.len() > 0,
        r.len() > 0,
        forall|j: int| 0 <= j < p.len() ==> !r.contains(#[trigger] p[j]),
    ensures
        !occurs_at(replaced(s, p, r), p, i),
    decreases s.len(),
{
    let t = replaced(s, p, r);
    if occurs_at(t, p, i) && s.len() > 0 {
        assert(t.subrange(i, i + p.len())[0] == p[0]);
        assert(t[i] == p[0]);
        if p.is_prefix_of(s) {
            let rest = s.skip(p.len() as int);
            let u = replaced(rest, p, r);
            if i < r.len() {
                assert(t[i] == r[i]);
                assert(r.contains(r[i]));
            } else {
                assert(u.subrange(i - r.len(), i - r.len() + p.len()) =~= t.subrange(
                    i,
                    i + p.len(),
                ));
                lemma_no_occurrence(rest, p, r, i - r.len());
            }
        } else {
            let rest = s.drop_first();
            let u = replaced(rest, p, r);
            if i == 0 {
                assert forall|j: int| 0 <= j < p.len() implies #[trigger] t[j] == p[0 + j] by {
                    assert(t.subrange(0, p.len() as int)[j] == p[j]);
                }
                lemma_replaced_middle(s, p, r, 0, p.len() as int);
                assert(p.subrange(0, p.len() as int) =~= p);
                assert(s.subrange(0, p.len() as int) =~= s.take(p.len() as int));
            } else {
                assert(u.subrange(i - 1, i - 1 + p.len()) =~= t.subrange(i, i + p.len()));
                lemma_no_occurrence(rest, p, r, i - 1);
            }
        }
    }
}

/// What stands behind the last `c`, where `c` occurs.
pub fn after_last(s: &str, c: char) -> (r: Option<&str>)
    ensures
        match r {
            Some(t) => after_last_of(s@, c) == Some(t@),
            None => after_last_of(s@, c) is None,
        },
        r is Some <==> s@.contains(c),
{
    let v = chars_of(s);
    let mut i: usize = v.len();
    while i > 0
        invariant
            i <= v.len(),
            v@ == s@,
            forall|j: int| i <= j < v.len() ==> s@[j] != c,
        decreases i,
    {
        i = i - 1;
        if v[i] == c {
            proof {
                lemma_after_last(s@, c, i as int);
                assert(s@.skip(i as int + 1) =~= s@.subrange(i as int + 1, s@.len() as int));
            }
            return Some(s.substring_char(i + 1, v.len()));
        }
    }
    proof {
        lemma_no_last(s@, c);
    }
    None
}

pub fn decimal(n: u128) -> (r: String)
    ensures
        r@ == decimal_of(n as nat),
    decreases n,
{
    let d: char = ((n % 10) as u8 + 48) as char;
    if n < 10 {
        let mut r: String = String::new();
        r.push(d);
        assert(r@ =~= decimal_of(n as nat));
        r
    } else {
        let mut r: String = decimal(n / 10);
        r.push(d);
        r
    }
}

/// Whether `p` occurs in `s`.
pub fn contains_text(s: &str, p: &str) -> (r: bool)
    ensures
        r == has_text(s@, p@),
{
    let v = chars_of(s);
    let w = chars_of(p);
    let mut i: usize = 0;
    while i <= v.len() && w.len() <= v.len() - i
        invariant
            i <= v.len() + 1,
            v@ == s@,
            w@ == p@,
            forall|j: int| 0 <= j < i ==> !occurs_at(s@, p@, j),
        decreases v.len() + 1 - i,
    {
        if matches_at(&v, &w, i) {
            assert(occurs_at(s@, p@, i as int));
            return true;
        }
        if i == v.len() {
            return false;
        }
        i = i + 1;
    }
    false
}

fn matches_at(v: &Vec<char>, w: &Vec<char>, at: usize) -> (r: bool)
    requires
        at + w.len() <= v.len(),
    ensures
        r == occurs_at(v@, w@, at as int),
{
    let mut i: usize = 0;
    while i < w.len()
        invariant
            i <= w.len(),
            at + w.len() <= v.len(),
            forall|j: int| 0 <= j < i ==> v@[at + j] == w@[j],
        decreases w.len() - i,
    {
        if v[at + i] != w[i] {
            assert(v@.subrange(at as int, at + w@.len())[i as int] != w@[i as int]);
            return false;
        }
        i = i + 1;
    }
    assert(v@.subrange(at as int, at + w@.len()) =~= w@);
    true
}

/// The number of characters (not bytes).
pub fn char_count(s: &str) -> (n: usize)
    ensures
        n == s@.len(),
{
    s.unicode_len()
}

/// The trimmed text, unless nothing is left of it.
pub open spec fn solid(t: Option<Seq<char>>) -> Option<Seq<char>> {
    match t {
        Some(s) => if trim_of(s).len() > 0 {
            Some(trim_of(s))
        } else {
            None
        },
        None => None,
    }
}

pub fn solid_text(t: &str) -> (r: Option<String>)
    ensures
        opt_text(r) == solid(Some(t@)),
{
    let s = trim(t);
    proof {
        trim_empties_only_blank_text(t@);
    }
    if is_blank(t) {
        None
    } else {
        Some(s.to_owned())
    }
}

// ── Numbers ────────────────────────────────────────────────────────────────────

pub open spec fn is_digit(c: char) -> bool {
    '0' <= c && c <= '9'
}

/// The number that decimal digits write.
pub open spec fn value_of(s: Seq<char>) -> nat
    decreases s.len(),
{
    if s.len() == 0 {
        0
    } else {
        value_of(s.drop_last()) * 10 + (s.last() as int - '0' as int) as nat
    }
}

pub open spec fn all_digits(s: Seq<char>) -> bool {
    forall|i: int| 0 <= i < s.len() ==> is_digit(#[trigger] s[i])
}

pub open spec fn unsigned_text(s: Seq<char>) -> Seq<char> {
    if s.len() > 0 && s[0] == '+' {
        s.skip(1)
    } else {
        s
    }
}

/// The number a text writes: decimal digits, with or without a plus sign before them,
/// up to a bound.
pub open spec fn number_of(s: Seq<char>, bound: nat) -> Option<nat> {
    let digits = unsigned_text(s);
    if digits.len() > 0 && all_digits(digits) && value_of(digits) <= bound {
        Some(value_of(digits))
    } else {
        None
    }
}

proof fn lemma_value_grows(s: Seq<char>, i: int)
    requires
        0 <= i <= s.len(),
        all_digits(s),
    ensures
        value_of(s.take(i)) <= value_of(s),
    decreases s.len(),
{
    if i == s.len() {
        assert(s.take(i) =~= s);
    } else {
        let init = s.drop_last();
        assert forall|j: int| 0 <= j < init.len() implies is_digit(#[trigger] init[j]) by {
            assert(is_digit(s[j]));
        }
        lemma_value_grows(init, i);
        assert(init.take(i) =~= s.take(i));
        assert(is_digit(s[s.len() - 1]));
    }
}

fn digit_value(c: char) -> (r: u64)
    requires
        is_digit(c),
    ensures
        r == c as int - '0' as int,
        r <= 9,
{
    c as u64 - '0' as u64
}

/// Read a number.
pub fn parse_number(s: &str, bound: u64) -> (r: Option<u64>)
    ensures
        match r {
            Some(n) => number_of(s@, bound as nat) == Some(n as nat),
            None => number_of(s@, bound as nat) is None,
        },
{
    let v = chars_of(s);
    let start: usize = if v.len() > 0 && v[0] == '+' {
        1
    } else {
        0
    };
    let ghost digits = unsigned_text(s@);
    assert(s@.skip(0) =~= s@);
    assert(digits == s@.skip(start as int));
    if start == v.len() {
        return None;
    }
    let mut n: u64 = 0;
    let mut i: usize = start;
    assert(digits.take(0) =~= Seq::<char>::empty());
    while i < v.len()
        invariant
            start <= i <= v.len(),
            start <= 1,
            v@ == s@,
            digits == unsigned_text(s@),
            digits == s@.skip(start as int),
            digits.len() == v.len() - start,
            n == value_of(digits.take(i - start)),
            n <= bound,
            forall|j: int| 0 <= j < i - start ==> is_digit(#[trigger] digits[j]),
        decreases v.len() - i,
    {
        let c = v[i];
        assert(digits[i - start] == c);
        if c < '0' || c > '9' {
            return None;
        }
        let d = digit_value(c);
        let wide: u128 = n as u128 * 10 + d as u128;
        proof {
            let t = digits.take(i - start + 1);
            assert(t.drop_last() =~= digits.take(i - start));
            assert(t.last() == c);
            assert(wide == value_of(t));
        }
        if wide > bound as u128 {
            proof {
                if all_digits(digits) {
                    lemma_value_grows(digits, i - start + 1);
                }
            }
            return None;
        }
        n = wide as u64;
        i = i + 1;
    }
    assert(digits.take(v.len() - start) =~= digits);
    Some(n)
}

// ── Order ──────────────────────────────────────────────────────────────────────

/// The order of a dictionary, by code points.
pub open spec fn text_le(a: Seq<char>, b: Seq<char>) -> bool
    decreases a.len(),
{
    if a.len() == 0 {
        true
    } else if b.len() == 0 {
        false
    } else if a[0] != b[0] {
        (a[0] as int) < (b[0] as int)
    } else {
        text_le(a.skip(1), b.skip(1))
    }
}

pub proof fn text_le_total(a: Seq<char>, b: Seq<char>)
    ensures
        text_le(a, b) || text_le(b, a),
    decreases a.len(),
{
    if a.len() > 0 && b.len() > 0 && a[0] == b[0] {
        text_le_total(a.skip(1), b.skip(1));
    }
}

pub proof fn text_le_transitive(a: Seq<char>, b: Seq<char>, c: Seq<char>)
    requires
        text_le(a, b),
        text_le(b, c),
    ensures
        text_le(a, c),
    decreases a.len(),
{
    if a.len() > 0 && b.len() > 0 && c.len() > 0 && a[0] == b[0] && b[0] == c[0] {
        text_le_transitive(a.skip(1), b.skip(1), c.skip(1));
    }
}

pub proof fn text_le_antisymmetric(a: Seq<char>, b: Seq<char>)
    requires
        text_le(a, b),
        text_le(b, a),
    ensures
        a == b,
    decreases a.len(),
{
    if a.len() > 0 && b.len() > 0 {
        assert(a[0] == b[0]);
        text_le_antisymmetric(a.skip(1), b.skip(1));
        assert forall|i: int| 0 <= i < a.len() implies a[i] == b[i] by {
            if i > 0 {
                assert(a.skip(1)[i - 1] == b.skip(1)[i - 1]);
            }
        }
        assert(a.skip(1).len() == b.skip(1).len());
        assert(a =~= b);
    } else {
        assert(a =~= b);
    }
}

fn comes_before(c: char, d: char) -> (r: bool)
    ensures
        r == ((c as int) < (d as int)),
{
    (c as u32) < (d as u32)
}

/// Whether a text comes no later than another.
pub fn is_text_le(a: &str, b: &str) -> (r: bool)
    ensures
        r == text_le(a@, b@),
{
    let v = chars_of(a);
    let w = chars_of(b);
    let mut i: usize = 0;
    assert(a@.skip(0) =~= a@);
    assert(b@.skip(0) =~= b@);
    while i < v.len() && i < w.len()
        invariant
            i <= v.len(),
            i <= w.len(),
            v@ == a@,
            w@ == b@,
            text_le(a@, b@) == text_le(a@.skip(i as int), b@.skip(i as int)),
        decreases v.len() - i,
    {
        if v[i] != w[i] {
            return comes_before(v[i], w[i]);
        }
        assert(a@.skip(i as int).skip(1) =~= a@.skip(i as int + 1));
        assert(b@.skip(i as int).skip(1) =~= b@.skip(i as int + 1));
        i = i + 1;
    }
    i == v.len()
}

// ── What the helpers do ────────────────────────────────────────────────────────

/// Within ASCII, white space is the blank, the tab and the line breaks.
pub proof fn ascii_white_space(c: char)
    requires
        (c as int) < 128,
    ensures
        white(c) == (c as int == 32 || 9 <= c as int <= 13),
{
}

/// Trimming takes white space off both ends, and nothing else.
pub proof fn trimming_takes_white_space_off_the_ends(s: Seq<char>)
    ensures
        exists|a: int, b: int|
            0 <= a <= b <= s.len() && trim_of(s) == #[trigger] s.subrange(a, b) && blank(s.take(a))
                && blank(s.skip(b)),
        trim_of(s).len() > 0 ==> !white(trim_of(s)[0]) && !white(trim_of(s).last()),
{
    let (a, b) = lemma_trim_bounds(s);
    assert(trim_of(s) == s.subrange(a, b));
    assert(blank(s.take(a)));
    assert(blank(s.skip(b)));
}

/// A text that is more than white space counts as what trimming leaves of it; any other
/// counts as none.
pub proof fn blank_text_counts_as_none(s: Seq<char>)
    ensures
        blank(s) ==> solid(Some(s)) is None,
        !blank(s) ==> solid(Some(s)) == Some(trim_of(s)),
        solid(None) is None,
{
    trim_empties_only_blank_text(s);
}

/// Folding goes character by character; a letter keeps its place in the alphabet, and
/// what is no ASCII letter of the other case stays.
pub proof fn folding_keeps_the_letters(s: Seq<char>, i: int)
    requires
        0 <= i < s.len(),
    ensures
        lower_of(s).len() == s.len(),
        upper_of(s).len() == s.len(),
        'A' <= s[i] && s[i] <= 'Z' ==> lower_of(s)[i] as int - 'a' as int == s[i] as int
            - 'A' as int,
        !('A' <= s[i] && s[i] <= 'Z') ==> lower_of(s)[i] == s[i],
        'a' <= s[i] && s[i] <= 'z' ==> upper_of(s)[i] as int - 'A' as int == s[i] as int
            - 'a' as int,
        !('a' <= s[i] && s[i] <= 'z') ==> upper_of(s)[i] == s[i],
{
}

/// A text is cut in two at the first occurrence of a character, which goes; without an
/// occurrence it is not cut.
pub proof fn a_text_is_cut_at_the_first(s: Seq<char>, c: char)
    ensures
        split_once_of(s, c) is Some <==> s.contains(c),
        split_once_of(s, c) is Some ==> {
            let (a, b) = split_once_of(s, c)->0;
            s == a + seq![c] + b && !a.contains(c)
        },
{
    if s.contains(c) {
        s.index_of_first_ensures(c);
        let i = s.index_of_first(c)->0;
        assert(s =~= s.take(i) + seq![c] + s.skip(i + 1));
        assert(!s.take(i).contains(c));
    }
}

/// What stands behind the last occurrence of a character holds no other, and a text
/// without one has no such part.
pub proof fn a_tail_stands_behind_the_last(s: Seq<char>, c: char)
    ensures
        after_last_of(s, c) is Some <==> s.contains(c),
        after_last_of(s, c) is Some ==> {
            let t = after_last_of(s, c)->0;
            &&& t.len() < s.len()
            &&& t == s.skip(s.len() - t.len())
            &&& s[s.len() - t.len() - 1] == c
            &&& !t.contains(c)
        },
    decreases s.len(),
{
    if s.len() > 0 {
        if s.last() == c {
            assert(s.skip(s.len() as int) =~= Seq::<char>::empty());
            assert(s[s.len() - 1] == c);
        } else {
            let init = s.drop_last();
            a_tail_stands_behind_the_last(init, c);
            assert(init.contains(c) <==> s.contains(c)) by {
                if s.contains(c) {
                    let k = choose|k: int| 0 <= k < s.len() && s[k] == c;
                    assert(init[k] == c);
                }
                if init.contains(c) {
                    let k = choose|k: int| 0 <= k < init.len() && init[k] == c;
                    assert(s[k] == c);
                }
            }
            if after_last_of(init, c) is Some {
                let u = after_last_of(init, c)->0;
                let t = u.push(s.last());
                assert(t =~= s.skip(s.len() - t.len())) by {
                    assert forall|i: int| 0 <= i < u.len() implies #[trigger] u[i] == s[s.len() - 1
                        - u.len() + i] by {
                        assert(u[i] == init.skip(init.len() - u.len())[i]);
                    }
                }
                assert(!t.contains(c)) by {
                    if t.contains(c) {
                        let k = choose|k: int| 0 <= k < t.len() && t[k] == c;
                        assert(u[k] == c);
                    }
                }
            }
        }
    }
}

/// The pieces of a text, put together with a character between each two.
pub open spec fn joined(pieces: Seq<Seq<char>>, c: char) -> Seq<char>
    decreases pieces.len(),
{
    if pieces.len() == 0 {
        Seq::empty()
    } else if pieces.len() == 1 {
        pieces[0]
    } else {
        joined(pieces.drop_last(), c) + seq![c] + pieces.last()
    }
}

/// The pieces of a text hold no separator, and joined by it they are the text again.
pub proof fn pieces_join_to_the_text(s: Seq<char>, c: char)
    ensures
        split_of(s, c).len() > 0,
        joined(split_of(s, c), c) == s,
        forall|i: int| 0 <= i < split_of(s, c).len() ==> !(#[trigger] split_of(s, c)[i]).contains(c),
    decreases s.len(),
{
    if s.len() > 0 {
        let init = s.drop_last();
        let p = split_of(init, c);
        let q = split_of(s, c);
        pieces_join_to_the_text(init, c);
        if s.last() == c {
            assert(q.drop_last() =~= p);
            assert(joined(q, c) =~= s);
            assert forall|i: int| 0 <= i < q.len() implies !(#[trigger] q[i]).contains(c) by {
                if i < p.len() {
                    assert(q[i] == p[i]);
                }
            }
        } else {
            let end = p.last().push(s.last());
            assert(q.last() == end);
            assert(q.drop_last() =~= p.drop_last());
            assert(q.len() == p.len());
            if p.len() == 1 {
                assert(joined(p, c) == p[0]);
                assert(q[0] == end);
                assert(joined(q, c) =~= s);
            } else {
                assert(joined(p, c) == joined(p.drop_last(), c) + seq![c] + p.last());
                assert(joined(q, c) =~= joined(p, c).push(s.last()));
                assert(joined(q, c) =~= s);
            }
            assert forall|i: int| 0 <= i < q.len() implies !(#[trigger] q[i]).contains(c) by {
                if i < p.len() - 1 {
                    assert(q[i] == q.drop_last()[i]);
                    assert(p.drop_last()[i] == p[i]);
                } else {
                    assert(!p[p.len() - 1].contains(c));
                    if end.contains(c) {
                        let k = choose|k: int| 0 <= k < end.len() && end[k] == c;
                        assert(p.last()[k] == c);
                    }
                }
            }
        }
    }
}

/// The first occurrence is replaced, what stands before it stays, and what stands behind
/// it is treated in the same way; without an occurrence the text stays.
pub proof fn the_first_occurrence_is_replaced(s: Seq<char>, p: Seq<char>, r: Seq<char>, i: int)
    requires
        p.len() > 0,
        forall|j: int| 0 <= j < i ==> !occurs_at(s, p, j),
        occurs_at(s, p, i) || i == s.len(),
    ensures
        occurs_at(s, p, i) ==> replaced(s, p, r) == s.take(i) + r + replaced(
            s.skip(i + p.len()),
            p,
            r,
        ),
        !occurs_at(s, p, i) ==> replaced(s, p, r) == s,
    decreases s.len(),
{
    if s.len() == 0 {
    } else if p.is_prefix_of(s) {
        assert(s.subrange(0, 0 + p.len() as int) =~= p);
        assert(occurs_at(s, p, 0));
        assert(i == 0);
        assert(s.take(0) + r =~= r);
        assert(s.skip(0 + p.len() as int) =~= s.skip(p.len() as int));
    } else {
        if i == 0 {
            assert(s.subrange(0, p.len() as int) =~= s.take(p.len() as int));
            assert(p.is_prefix_of(s));
        }
        let t = s.drop_first();
        assert forall|j: int| 0 <= j < i - 1 implies !occurs_at(t, p, j) by {
            assert(!occurs_at(s, p, j + 1));
            if j + p.len() <= t.len() {
                assert(t.subrange(j, j + p.len()) =~= s.subrange(j + 1, j + 1 + p.len()));
            }
        }
        if i + p.len() <= s.len() {
            assert(t.subrange(i - 1, i - 1 + p.len()) =~= s.subrange(i, i + p.len()));
        }
        assert(occurs_at(s, p, i) == occurs_at(t, p, i - 1));
        the_first_occurrence_is_replaced(t, p, r, i - 1);
        if occurs_at(s, p, i) {
            assert(t.skip(i - 1 + p.len()) =~= s.skip(i + p.len()));
            assert(seq![s[0]] + (t.take(i - 1) + r + replaced(s.skip(i + p.len()), p, r))
                =~= s.take(i) + r + replaced(s.skip(i + p.len()), p, r));
        } else {
            assert(seq![s[0]] + t =~= s);
        }
    }
}

/// A number is read back from its decimal digits, which do not start with a needless
/// zero.
pub proof fn decimal_digits_write_the_number(n: nat)
    ensures
        value_of(decimal_of(n)) == n,
        all_digits(decimal_of(n)),
        decimal_of(n).len() > 0,
        decimal_of(n).len() > 1 ==> decimal_of(n)[0] != '0',
    decreases n,
{
    if n < 10 {
        assert(decimal_of(n).drop_last() =~= Seq::<char>::empty());
        assert(value_of(Seq::<char>::empty()) == 0);
    } else {
        decimal_digits_write_the_number(n / 10);
        let d = decimal_of(n / 10);
        assert(decimal_of(n).drop_last() =~= d);
        assert forall|i: int| 0 <= i < decimal_of(n).len() implies is_digit(
            #[trigger] decimal_of(n)[i],
        ) by {
            if i < d.len() {
                assert(decimal_of(n)[i] == d[i]);
                assert(is_digit(d[i]));
            }
        }
        if d.len() == 1 {
            assert(n / 10 < 10) by {
                if n / 10 >= 10 {
                    decimal_digits_write_the_number(n / 10 / 10);
                }
            }
            assert(d[0] == digit(n / 10));
        }
        assert(decimal_of(n)[0] == d[0]);
    }
}

/// A number within the bound is read from its digits, with a plus sign or without;
/// beyond the bound nothing is read, nor from a text with anything but digits.
pub proof fn a_number_is_read_from_its_digits(n: nat, bound: nat, s: Seq<char>, i: int)
    ensures
        n <= bound ==> number_of(decimal_of(n), bound) == Some(n),
        n <= bound ==> number_of(seq!['+'] + decimal_of(n), bound) == Some(n),
        n > bound ==> number_of(decimal_of(n), bound) is None,
        0 < i < s.len() && !is_digit(s[i]) ==> number_of(s, bound) is None,
        s.len() > 0 && !is_digit(s[0]) && s[0] != '+' ==> number_of(s, bound) is None,
        s.len() == 0 ==> number_of(s, bound) is None,
        number_of(seq!['+'], bound) is None,
{
    decimal_digits_write_the_number(n);
    let d = decimal_of(n);
    assert(is_digit(d[0]));
    let signed = seq!['+'] + d;
    assert(signed.skip(1) =~= d);
    assert(seq!['+'].skip(1).len() == 0);
    if 0 < i < s.len() && !is_digit(s[i]) && s[0] == '+' {
        assert(s.skip(1)[i - 1] == s[i]);
    }
}

/// Of two texts the one comes first that has the smaller character where they first
/// differ; a beginning of a text comes before it.
pub proof fn texts_are_ordered_by_their_first_difference(a: Seq<char>, b: Seq<char>, i: int)
    requires
        0 <= i <= a.len(),
        i <= b.len(),
        a.take(i) == b.take(i),
    ensures
        i < a.len() && i < b.len() && a[i] != b[i] ==> text_le(a, b) == ((a[i] as int) < (
        b[i] as int)),
        i == a.len() ==> text_le(a, b),
        i == b.len() && i < a.len() ==> !text_le(a, b),
    decreases i,
{
    if i > 0 {
        assert(a[0] == a.take(i)[0]);
        assert(b[0] == b.take(i)[0]);
        assert(a.skip(1).take(i - 1) =~= a.take(i).skip(1));
        assert(b.skip(1).take(i - 1) =~= b.take(i).skip(1));
        texts_are_ordered_by_their_first_difference(a.skip(1), b.skip(1), i - 1);
        assert(text_le(a, b) == text_le(a.skip(1), b.skip(1)));
        if i < a.len() {
            assert(a.skip(1)[i - 1] == a[i]);
        }
        if i < b.len() {
            assert(b.skip(1)[i - 1] == b[i]);
        }
    }
}

} // verus!
