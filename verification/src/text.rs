//! Character-level text operations used by the argument, manifest and
//! lockfile logic, each stated over `Seq<char>`.
use vstd::prelude::*;

verus! {

broadcast use vstd::string::group_string_axioms;

/// Unicode `White_Space`, the set that `char::is_whitespace` (and so `str::trim`) uses.
pub open spec fn is_ws(c: char) -> bool {
    ||| c == '\t' || c == '\n' || c == '\u{0B}' || c == '\u{0C}' || c == '\r' || c == ' '
    ||| c == '\u{85}' || c == '\u{A0}' || c == '\u{1680}'
    ||| ('\u{2000}' <= c && c <= '\u{200A}')
    ||| c == '\u{2028}' || c == '\u{2029}' || c == '\u{202F}' || c == '\u{205F}' || c == '\u{3000}'
}

/// `s` without its leading whitespace.
pub open spec fn trim_start(s: Seq<char>) -> Seq<char>
    decreases s.len(),
{
    if s.len() > 0 && is_ws(s[0]) {
        trim_start(s.drop_first())
    } else {
        s
    }
}

/// `s` without its trailing whitespace.
pub open spec fn trim_end(s: Seq<char>) -> Seq<char>
    decreases s.len(),
{
    if s.len() > 0 && is_ws(s.last()) {
        trim_end(s.drop_last())
    } else {
        s
    }
}

/// `s` without leading and trailing whitespace.
pub open spec fn trim(s: Seq<char>) -> Seq<char> {
    trim_end(trim_start(s))
}

pub open spec fn lower_char(c: char) -> char {
    if 'A' <= c && c <= 'Z' {
        ((c as u32) + 32) as char
    } else {
        c
    }
}

/// ASCII lower case; other characters unchanged.
pub open spec fn ascii_lower(s: Seq<char>) -> Seq<char> {
    s.map_values(|c: char| lower_char(c))
}

/// The pieces of `s` between occurrences of `sep`, as `str::split` gives them.
pub open spec fn split_on(s: Seq<char>, sep: char) -> Seq<Seq<char>>
    decreases s.len(),
{
    if s.len() == 0 {
        seq![Seq::<char>::empty()]
    } else {
        let init = split_on(s.drop_last(), sep);
        if s.last() == sep {
            init.push(Seq::<char>::empty())
        } else {
            init.update(init.len() - 1, init.last().push(s.last()))
        }
    }
}

/// Each piece trimmed.
pub open spec fn trimmed(s: Seq<Seq<char>>) -> Seq<Seq<char>> {
    s.map_values(|p: Seq<char>| trim(p))
}

/// The pieces that hold at least one character.
pub open spec fn nonempty_items(s: Seq<Seq<char>>) -> Seq<Seq<char>> {
    s.filter(|p: Seq<char>| p.len() > 0)
}

/// The comma-separated items of `s`, each trimmed, empty items left out.
pub open spec fn csv_items(s: Seq<char>) -> Seq<Seq<char>> {
    nonempty_items(trimmed(split_on(s, ',')))
}

proof fn lemma_csv_push(a: Seq<Seq<char>>, x: Seq<char>)
    ensures
        nonempty_items(trimmed(a.push(x))) == (if trim(x).len() > 0 {
            nonempty_items(trimmed(a)).push(trim(x))
        } else {
            nonempty_items(trimmed(a))
        }),
{
    assert(trimmed(a.push(x)) =~= trimmed(a).push(trim(x)));
    reveal(Seq::filter);
    assert(trimmed(a).push(trim(x)).drop_last() =~= trimmed(a));
}

/// Every non-overlapping occurrence of `pat`, from the left, replaced by `rep`.
pub open spec fn replace_all(s: Seq<char>, pat: Seq<char>, rep: Seq<char>) -> Seq<char>
    recommends
        pat.len() > 0,
    decreases s.len(),
{
    if s.len() == 0 || pat.len() == 0 {
        s
    } else if pat.is_prefix_of(s) {
        rep + replace_all(s.skip(pat.len() as int), pat, rep)
    } else {
        seq![s[0]] + replace_all(s.drop_first(), pat, rep)
    }
}

pub open spec fn escape_char(c: char) -> Seq<char> {
    if c == '\\' {
        seq!['\\', '\\']
    } else if c == '"' {
        seq!['\\', '"']
    } else {
        seq![c]
    }
}

/// Backslash before every backslash and double quote.
pub open spec fn escape_quoted(s: Seq<char>) -> Seq<char>
    decreases s.len(),
{
    if s.len() == 0 {
        s
    } else {
        escape_quoted(s.drop_last()) + escape_char(s.last())
    }
}

pub open spec fn digit_char(d: nat) -> char {
    (('0' as u32) + d) as char
}

/// The decimal digits of `n`.
pub open spec fn decimal(n: nat) -> Seq<char>
    decreases n,
{
    if n < 10 {
        seq![digit_char(n)]
    } else {
        decimal(n / 10).push(digit_char(n % 10))
    }
}

/// The decimal form of `i`, with a minus sign when it is negative.
pub open spec fn signed_decimal(i: int) -> Seq<char> {
    if i < 0 {
        seq!['-'] + decimal((-i) as nat)
    } else {
        decimal(i as nat)
    }
}

/// The views of a sequence of strings.
pub open spec fn views(s: Seq<String>) -> Seq<Seq<char>> {
    s.map_values(|x: String| x@)
}

/// The view of an optional string.
pub open spec fn opt_view(o: Option<String>) -> Option<Seq<char>> {
    match o {
        Some(s) => Some(s@),
        None => None,
    }
}

/// `parts` with `sep` between each two.
pub open spec fn join_seq(parts: Seq<Seq<char>>, sep: Seq<char>) -> Seq<char>
    decreases parts.len(),
{
    if parts.len() == 0 {
        Seq::empty()
    } else if parts.len() == 1 {
        parts[0]
    } else {
        join_seq(parts.drop_last(), sep) + sep + parts.last()
    }
}

/// A trusted append of one character: `String::push`.
#[verifier::external_body]
pub(crate) fn push_char(s: &mut String, c: char)
    ensures
        final(s)@ == old(s)@.push(c),
{
    s.push(c);
}

/// The characters of `s`, in order.
pub fn chars_of(s: &str) -> (r: Vec<char>)
    ensures
        r@ == s@,
{
    let mut r: Vec<char> = Vec::new();
    for c in it: s.chars()
        invariant
            r@ == it.seq().take(it.index() as int),
            it.seq() == s@,
    {
        r.push(c);
    }
    r
}

/// The string made of `cs[from..to]`.
pub fn string_of(cs: &[char], from: usize, to: usize) -> (r: String)
    requires
        from <= to <= cs@.len(),
    ensures
        r@ == cs@.subrange(from as int, to as int),
{
    let mut r = String::new();
    let mut i = from;
    while i < to
        invariant
            from <= i <= to <= cs@.len(),
            r@ == cs@.subrange(from as int, i as int),
        decreases to - i,
    {
        push_char(&mut r, cs[i]);
        assert(cs@.subrange(from as int, i + 1) == cs@.subrange(from as int, i as int).push(cs@[i as int]));
        i += 1;
    }
    r
}

/// `a` followed by `b`.
pub fn cat(a: &str, b: &str) -> (r: String)
    ensures
        r@ == a@ + b@,
{
    let mut r = a.to_string();
    r.append(b);
    r
}

/// `a`, `b` and `c` in turn.
pub fn cat3(a: &str, b: &str, c: &str) -> (r: String)
    ensures
        r@ == a@ + b@ + c@,
{
    let mut r = a.to_string();
    r.append(b);
    r.append(c);
    r
}

/// Whether `a` and `b` hold the same characters.
pub fn str_eq(a: &str, b: &str) -> (r: bool)
    ensures
        r == (a@ == b@),
{
    let x = chars_of(a);
    let y = chars_of(b);
    if x.len() != y.len() {
        return false;
    }
    let mut i: usize = 0;
    while i < x.len()
        invariant
            x@ == a@,
            y@ == b@,
            x@.len() == y@.len(),
            0 <= i <= x@.len(),
            forall|j: int| 0 <= j < i ==> x@[j] == y@[j],
        decreases x.len() - i,
    {
        if x[i] != y[i] {
            return false;
        }
        i += 1;
    }
    assert(x@ =~= y@);
    true
}

/// Whether `p` is a prefix of the characters `s`.
pub fn has_prefix(s: &[char], p: &[char]) -> (r: bool)
    ensures
        r == p@.is_prefix_of(s@),
{
    if p.len() > s.len() {
        return false;
    }
    let mut i: usize = 0;
    while i < p.len()
        invariant
            p@.len() <= s@.len(),
            0 <= i <= p@.len(),
            forall|j: int| 0 <= j < i ==> p@[j] == s@[j],
        decreases p.len() - i,
    {
        if p[i] != s[i] {
            return false;
        }
        i += 1;
    }
    true
}

/// Whether `s` starts with `p`.
pub fn starts_with(s: &str, p: &str) -> (r: bool)
    ensures
        r == p@.is_prefix_of(s@),
{
    let x = chars_of(s);
    let y = chars_of(p);
    has_prefix(x.as_slice(), y.as_slice())
}

/// Whether `s` ends with `p`.
pub fn ends_with(s: &str, p: &str) -> (r: bool)
    ensures
        r == p@.is_suffix_of(s@),
{
    let x = chars_of(s);
    let y = chars_of(p);
    if y.len() > x.len() {
        return false;
    }
    let off: usize = x.len() - y.len();
    let mut i: usize = 0;
    while i < y.len()
        invariant
            x@ == s@,
            y@ == p@,
            y@.len() <= x@.len(),
            off == x@.len() - y@.len(),
            x@.len() <= usize::MAX,
            0 <= i <= y@.len(),
            forall|j: int| 0 <= j < i ==> y@[j] == x@[off + j],
        decreases y.len() - i,
    {
        assert(off + i < x@.len());
        if y[i] != x[off + i] {
            return false;
        }
        i += 1;
    }
    true
}

/// What follows the prefix `p` in `s`, if `s` starts with it.
pub fn strip_prefix(s: &str, p: &str) -> (r: Option<String>)
    ensures
        p@.is_prefix_of(s@) <==> r is Some,
        r matches Some(rest) ==> rest@ == s@.skip(p@.len() as int),
{
    let x = chars_of(s);
    let y = chars_of(p);
    if has_prefix(x.as_slice(), y.as_slice()) {
        Some(string_of(x.as_slice(), y.len(), x.len()))
    } else {
        None
    }
}

/// Whether `s` holds no character.
pub fn str_is_empty(s: &String) -> (r: bool)
    ensures
        r == (s@.len() == 0),
{
    s.as_str().is_empty()
}

/// Whether `c` is Unicode white space.
pub fn char_is_ws(c: char) -> (r: bool)
    ensures
        r == is_ws(c),
{
    c == '\t' || c == '\n' || c == '\u{0B}' || c == '\u{0C}' || c == '\r' || c == ' '
        || c == '\u{85}' || c == '\u{A0}' || c == '\u{1680}' || ('\u{2000}' <= c && c
        <= '\u{200A}') || c == '\u{2028}' || c == '\u{2029}' || c == '\u{202F}' || c
        == '\u{205F}' || c == '\u{3000}'
}

proof fn lemma_trim_start_skip(s: Seq<char>, i: int)
    requires
        0 <= i <= s.len(),
        forall|j: int| 0 <= j < i ==> is_ws(#[trigger] s[j]),
    ensures
        trim_start(s) == trim_start(s.skip(i)),
    decreases i,
{
    if i > 0 {
        assert(s.skip(1) == s.drop_first());
        lemma_trim_start_skip(s.drop_first(), i - 1);
        assert(s.drop_first().skip(i - 1) == s.skip(i));
    } else {
        assert(s.skip(0) == s);
    }
}

proof fn lemma_trim_end_take(s: Seq<char>, i: int)
    requires
        0 <= i <= s.len(),
        forall|j: int| i <= j < s.len() ==> is_ws(#[trigger] s[j]),
    ensures
        trim_end(s) == trim_end(s.take(i)),
    decreases s.len() - i,
{
    if i < s.len() {
        lemma_trim_end_take(s.drop_last(), i);
        assert(s.drop_last().take(i) == s.take(i));
    } else {
        assert(s.take(i) == s);
    }
}

/// The characters of `cs[from..to]` without leading and trailing white space.
pub fn trim_chars(cs: &[char], from: usize, to: usize) -> (r: String)
    requires
        from <= to <= cs@.len(),
    ensures
        r@ == trim(cs@.subrange(from as int, to as int)),
{
    let ghost sub = cs@.subrange(from as int, to as int);
    let mut a = from;
    while a < to && char_is_ws(cs[a])
        invariant
            from <= a <= to <= cs@.len(),
            sub == cs@.subrange(from as int, to as int),
            forall|j: int| from <= j < a ==> is_ws(#[trigger] cs@[j]),
        decreases to - a,
    {
        a += 1;
    }
    proof {
        assert forall|j: int| 0 <= j < a - from implies is_ws(#[trigger] sub[j]) by {
            assert(sub[j] == cs@[from + j]);
        }
        lemma_trim_start_skip(sub, a - from);
        assert(sub.skip(a - from) == cs@.subrange(a as int, to as int));
    }
    let ghost mid = cs@.subrange(a as int, to as int);
    assert(a == to || !is_ws(mid[0]));
    assert(trim_start(mid) == mid);
    let mut b = to;
    while b > a && char_is_ws(cs[b - 1])
        invariant
            from <= a <= b <= to <= cs@.len(),
            forall|j: int| b <= j < to ==> is_ws(#[trigger] cs@[j]),
        decreases b - a,
    {
        b -= 1;
    }
    proof {
        assert forall|j: int| b - a <= j < mid.len() implies is_ws(#[trigger] mid[j]) by {
            assert(mid[j] == cs@[a + j]);
        }
        lemma_trim_end_take(mid, b - a);
        assert(mid.take(b - a) == cs@.subrange(a as int, b as int));
    }
    string_of(cs, a, b)
}

/// `s` without leading and trailing white space, as `str::trim` gives it.
pub fn trim_str(s: &str) -> (r: String)
    ensures
        r@ == trim(s@),
{
    let x = chars_of(s);
    assert(x@.subrange(0, x@.len() as int) == x@);
    trim_chars(x.as_slice(), 0, x.len())
}

/// `s` in ASCII lower case, as `str::to_ascii_lowercase` gives it.
pub fn to_ascii_lowercase(s: &str) -> (r: String)
    ensures
        r@ == ascii_lower(s@),
{
    let x = chars_of(s);
    let mut r = String::new();
    let mut i: usize = 0;
    while i < x.len()
        invariant
            x@ == s@,
            0 <= i <= x@.len(),
            r@ == ascii_lower(x@.take(i as int)),
        decreases x.len() - i,
    {
        let c = x[i];
        let l = if 'A' <= c && c <= 'Z' {
            char_from_u32_ascii((c as u32) + 32)
        } else {
            c
        };
        push_char(&mut r, l);
        assert(ascii_lower(x@.take(i + 1)) == ascii_lower(x@.take(i as int)).push(lower_char(x@[i as int])));
        i += 1;
    }
    assert(x@.take(x@.len() as int) == x@);
    r
}

/// The character with the given ASCII code.
fn char_from_u32_ascii(n: u32) -> (c: char)
    requires
        n < 128,
    ensures
        c == n as char,
{
    let b: u8 = n as u8;
    b as char
}

proof fn lemma_split_push(s: Seq<char>, sep: char, c: char)
    ensures
        split_on(s.push(c), sep) == (if c == sep {
            split_on(s, sep).push(Seq::<char>::empty())
        } else {
            let init = split_on(s, sep);
            init.update(init.len() - 1, init.last().push(c))
        }),
{
    assert(s.push(c).drop_last() == s);
}

proof fn lemma_split_nonempty(s: Seq<char>, sep: char)
    ensures
        split_on(s, sep).len() >= 1,
    decreases s.len(),
{
    if s.len() > 0 {
        lemma_split_nonempty(s.drop_last(), sep);
    }
}

/// The comma-separated items of `value`, trimmed, empty ones left out.
pub fn split_csv(value: &str) -> (r: Vec<String>)
    ensures
        views(r@) == csv_items(value@),
{
    let x = chars_of(value);
    let mut r: Vec<String> = Vec::new();
    let mut start: usize = 0;
    let mut i: usize = 0;
    assert(x@.take(0) =~= Seq::<char>::empty());
    assert(x@.subrange(0, 0) =~= Seq::<char>::empty());
    while i < x.len()
        invariant
            x@ == value@,
            0 <= start <= i <= x@.len(),
            split_on(x@.take(start as int), ',').len() >= 1,
            split_on(x@.take(i as int), ',') == split_on(x@.take(start as int), ',').drop_last().push(
                x@.subrange(start as int, i as int),
            ),
            views(r@) == nonempty_items(trimmed(split_on(x@.take(start as int), ',').drop_last())),
        decreases x.len() - i,
    {
        proof {
            lemma_split_nonempty(x@.take(i as int), ',');
            lemma_split_push(x@.take(i as int), ',', x@[i as int]);
            assert(x@.take(i + 1) == x@.take(i as int).push(x@[i as int]));
        }
        if x[i] == ',' {
            let piece = trim_chars(x.as_slice(), start, i);
            let ghost prefix = split_on(x@.take(start as int), ',').drop_last();
            let ghost seg = x@.subrange(start as int, i as int);
            proof {
                assert(split_on(x@.take(i + 1), ',').drop_last() == prefix.push(seg));
                lemma_csv_push(prefix, seg);
            }
            if !str_is_empty(&piece) {
                r.push(piece);
            }
            start = i + 1;
            assert(x@.subrange(start as int, (i + 1) as int) =~= Seq::<char>::empty());
        } else {
            assert(x@.subrange(start as int, i + 1) == x@.subrange(start as int, i as int).push(x@[i as int]));
        }
        i += 1;
    }
    proof {
        assert(x@.take(x@.len() as int) == x@);
    }
    let piece = trim_chars(x.as_slice(), start, x.len());
    let ghost prefix = split_on(x@.take(start as int), ',').drop_last();
    let ghost seg = x@.subrange(start as int, x@.len() as int);
    proof {
        lemma_csv_push(prefix, seg);
    }
    if !str_is_empty(&piece) {
        r.push(piece);
    }
    r
}

/// The order of `String`: lexicographic by character (UTF-8 bytes compare in
/// the same order as the characters they encode).
pub open spec fn str_lt(a: Seq<char>, b: Seq<char>) -> bool
    decreases a.len(),
{
    if a.len() == 0 {
        b.len() > 0
    } else if b.len() == 0 {
        false
    } else if a[0] != b[0] {
        a[0] < b[0]
    } else {
        str_lt(a.drop_first(), b.drop_first())
    }
}

pub proof fn lemma_str_lt_irreflexive(a: Seq<char>)
    ensures
        !str_lt(a, a),
    decreases a.len(),
{
    if a.len() > 0 {
        lemma_str_lt_irreflexive(a.drop_first());
    }
}

pub proof fn lemma_str_lt_trichotomy(a: Seq<char>, b: Seq<char>)
    ensures
        str_lt(a, b) || str_lt(b, a) || a == b,
    decreases a.len(),
{
    if a.len() > 0 && b.len() > 0 && a[0] == b[0] {
        lemma_str_lt_trichotomy(a.drop_first(), b.drop_first());
        if a.drop_first() == b.drop_first() {
            assert(a =~= seq![a[0]] + a.drop_first());
            assert(b =~= seq![b[0]] + b.drop_first());
        }
    } else if a.len() == 0 && b.len() == 0 {
        assert(a =~= b);
    }
}

pub proof fn lemma_str_lt_asymmetric(a: Seq<char>, b: Seq<char>)
    ensures
        str_lt(a, b) ==> !str_lt(b, a),
    decreases a.len(),
{
    if a.len() > 0 && b.len() > 0 && a[0] == b[0] {
        lemma_str_lt_asymmetric(a.drop_first(), b.drop_first());
    }
}

pub proof fn lemma_str_lt_transitive(a: Seq<char>, b: Seq<char>, c: Seq<char>)
    requires
        str_lt(a, b),
        str_lt(b, c),
    ensures
        str_lt(a, c),
    decreases a.len(),
{
    if a.len() > 0 && b.len() > 0 && c.len() > 0 && a[0] == b[0] && b[0] == c[0] {
        lemma_str_lt_transitive(a.drop_first(), b.drop_first(), c.drop_first());
    }
}

/// Whether `a` orders before `b`, as `String`'s `<` orders them.
pub fn str_less(a: &str, b: &str) -> (r: bool)
    ensures
        r == str_lt(a@, b@),
{
    let x = chars_of(a);
    let y = chars_of(b);
    let mut i: usize = 0;
    assert(x@.skip(0) == x@);
    assert(y@.skip(0) == y@);
    while i < x.len() && i < y.len() && x[i] == y[i]
        invariant
            x@ == a@,
            y@ == b@,
            0 <= i <= x@.len(),
            i <= y@.len(),
            str_lt(x@.skip(i as int), y@.skip(i as int)) == str_lt(a@, b@),
        decreases x.len() - i,
    {
        assert(x@.skip(i as int).drop_first() == x@.skip(i + 1));
        assert(y@.skip(i as int).drop_first() == y@.skip(i + 1));
        i += 1;
    }
    if i == x.len() {
        i < y.len()
    } else if i == y.len() {
        false
    } else {
        x[i] < y[i]
    }
}

/// Whether `s` is in strictly increasing order.
pub open spec fn strictly_sorted(s: Seq<Seq<char>>) -> bool {
    forall|i: int, j: int| 0 <= i < j < s.len() ==> str_lt(s[i], s[j])
}

/// The number of elements of the sorted `s` that order before `x`.
pub open spec fn count_below(s: Seq<Seq<char>>, x: Seq<char>) -> int
    decreases s.len(),
{
    if s.len() == 0 {
        0
    } else if str_lt(s.last(), x) {
        s.len() as int
    } else {
        count_below(s.drop_last(), x)
    }
}

/// `x` added to the strictly sorted `s`, keeping it strictly sorted.
pub open spec fn insert_unique(s: Seq<Seq<char>>, x: Seq<char>) -> Seq<Seq<char>> {
    if s.contains(x) {
        s
    } else {
        s.insert(count_below(s, x), x)
    }
}

/// The distinct elements of `s`, in increasing order.
pub open spec fn sort_dedup(s: Seq<Seq<char>>) -> Seq<Seq<char>>
    decreases s.len(),
{
    if s.len() == 0 {
        s
    } else {
        insert_unique(sort_dedup(s.drop_last()), s.last())
    }
}

proof fn lemma_count_below(s: Seq<Seq<char>>, x: Seq<char>)
    requires
        strictly_sorted(s),
    ensures
        0 <= count_below(s, x) <= s.len(),
        forall|i: int| 0 <= i < count_below(s, x) ==> str_lt(s[i], x),
        forall|i: int| count_below(s, x) <= i < s.len() ==> !str_lt(s[i], x),
    decreases s.len(),
{
    if s.len() > 0 {
        if str_lt(s.last(), x) {
            assert forall|i: int| 0 <= i < s.len() implies str_lt(s[i], x) by {
                if i < s.len() - 1 {
                    lemma_str_lt_transitive(s[i], s.last(), x);
                }
            }
        } else {
            assert(strictly_sorted(s.drop_last()));
            lemma_count_below(s.drop_last(), x);
            assert forall|i: int| 0 <= i < count_below(s, x) implies str_lt(s[i], x) by {
                assert(s[i] == s.drop_last()[i]);
            }
            assert forall|i: int| count_below(s, x) <= i < s.len() implies !str_lt(s[i], x) by {
                if i < s.len() - 1 {
                    assert(s[i] == s.drop_last()[i]);
                }
            }
        }
    }
}

proof fn lemma_insert_unique(s: Seq<Seq<char>>, x: Seq<char>)
    requires
        strictly_sorted(s),
    ensures
        strictly_sorted(insert_unique(s, x)),
        insert_unique(s, x).to_set() == s.to_set().insert(x),
{
    if s.contains(x) {
        assert(s.to_set().insert(x) =~= s.to_set());
    } else {
        let k = count_below(s, x);
        lemma_count_below(s, x);
        let r = s.insert(k, x);
        assert forall|i: int, j: int| 0 <= i < j < r.len() implies str_lt(r[i], r[j]) by {
            if j < k {
            } else if i < k && j == k {
            } else if i < k && j > k {
                assert(r[j] == s[j - 1]);
                lemma_str_lt_trichotomy(s[j - 1], x);
                lemma_str_lt_transitive(s[i], x, s[j - 1]);
            } else if i == k {
                assert(r[j] == s[j - 1]);
                lemma_str_lt_trichotomy(s[j - 1], x);
            } else {
                assert(r[i] == s[i - 1] && r[j] == s[j - 1]);
            }
        }
        assert(r.to_set() =~= s.to_set().insert(x)) by {
            assert forall|y: Seq<char>| r.to_set().contains(y) implies s.to_set().insert(x).contains(y) by {
                let i = choose|i: int| 0 <= i < r.len() && r[i] == y;
                if i > k {
                    assert(r[i] == s[i - 1]);
                } else if i < k {
                    assert(r[i] == s[i]);
                }
            }
            assert forall|y: Seq<char>| s.to_set().insert(x).contains(y) implies r.to_set().contains(y) by {
                if y == x {
                    assert(r[k] == x);
                } else {
                    let i = choose|i: int| 0 <= i < s.len() && s[i] == y;
                    if i < k {
                        assert(r[i] == y);
                    } else {
                        assert(r[i + 1] == y);
                    }
                }
            }
        }
    }
}

/// `sort_dedup(s)` is strictly increasing and holds exactly the elements of `s`.
pub proof fn lemma_sort_dedup(s: Seq<Seq<char>>)
    ensures
        strictly_sorted(sort_dedup(s)),
        sort_dedup(s).to_set() == s.to_set(),
    decreases s.len(),
{
    if s.len() == 0 {
        assert(s.to_set() =~= Set::<Seq<char>>::empty());
        assert(sort_dedup(s).to_set() =~= Set::<Seq<char>>::empty());
    } else {
        lemma_sort_dedup(s.drop_last());
        lemma_insert_unique(sort_dedup(s.drop_last()), s.last());
        assert(s.to_set() =~= s.drop_last().to_set().insert(s.last())) by {
            assert forall|y: Seq<char>| s.to_set().contains(y) implies s.drop_last().to_set().insert(s.last()).contains(y) by {
                let i = choose|i: int| 0 <= i < s.len() && s[i] == y;
                if i < s.len() - 1 {
                    assert(s.drop_last()[i] == y);
                }
            }
            assert forall|y: Seq<char>| s.drop_last().to_set().insert(s.last()).contains(y) implies s.to_set().contains(y) by {
                if y != s.last() {
                    let i = choose|i: int| 0 <= i < s.drop_last().len() && s.drop_last()[i] == y;
                    assert(s[i] == y);
                } else {
                    assert(s[s.len() - 1] == y);
                }
            }
        }
    }
}

/// A strictly increasing sequence is its own `sort_dedup`.
pub proof fn lemma_sort_dedup_sorted(s: Seq<Seq<char>>)
    requires
        strictly_sorted(s),
    ensures
        sort_dedup(s) == s,
    decreases s.len(),
{
    if s.len() > 0 {
        let init = s.drop_last();
        assert(strictly_sorted(init));
        lemma_sort_dedup_sorted(init);
        assert(!init.contains(s.last())) by {
            if init.contains(s.last()) {
                let i = choose|i: int| 0 <= i < init.len() && init[i] == s.last();
                assert(str_lt(s[i], s[s.len() - 1]));
                lemma_str_lt_irreflexive(s.last());
            }
        }
        assert(count_below(init, s.last()) == init.len()) by {
            if init.len() > 0 {
                assert(str_lt(s[init.len() - 1], s[s.len() - 1]));
            }
        }
        assert(init.insert(init.len() as int, s.last()) =~= s);
    }
}

/// The distinct strings of `v`, in increasing order.
pub fn sorted_unique(v: Vec<String>) -> (r: Vec<String>)
    ensures
        views(r@) == sort_dedup(views(v@)),
{
    let ghost s = views(v@);
    let mut rest = v;
    let mut out: Vec<String> = Vec::new();
    let mut i: usize = 0;
    let n = rest.len();
    assert(s.take(0) =~= Seq::<Seq<char>>::empty());
    assert(views(out@) =~= Seq::<Seq<char>>::empty());
    while rest.len() > 0
        invariant
            n == s.len(),
            i + rest@.len() == n,
            views(rest@) == s.skip(i as int),
            views(out@) == sort_dedup(s.take(i as int)),
            strictly_sorted(views(out@)),
        decreases rest.len(),
    {
        let ghost before = rest@;
        let x = rest.remove(0);
        assert(x@ == s[i as int]) by {
            assert(views(before)[0] == before[0]@);
        }
        assert(views(rest@) == s.skip(i + 1)) by {
            assert(rest@ == before.drop_first());
            assert(views(before.drop_first()) =~= views(before).drop_first());
        }
        let ghost o = views(out@);
        assert(s.take(i + 1).drop_last() == s.take(i as int));
        assert(s.take(i + 1).last() == x@);
        proof {
            lemma_insert_unique(o, x@);
        }
        let mut present = false;
        let mut j: usize = 0;
        while j < out.len()
            invariant
                o == views(out@),
                0 <= j <= out@.len(),
                present == exists|k: int| 0 <= k < j && o[k] == x@,
            decreases out.len() - j,
        {
            assert(o[j as int] == out@[j as int]@);
            if str_eq(out[j].as_str(), x.as_str()) {
                present = true;
            }
            j += 1;
        }
        if !present {
            let mut k = out.len();
            assert(o.take(k as int) == o);
            while k > 0 && str_less(x.as_str(), out[k - 1].as_str())
                invariant
                    o == views(out@),
                    0 <= k <= out@.len(),
                    count_below(o, x@) == count_below(o.take(k as int), x@),
                decreases k,
            {
                assert(o.take(k as int).drop_last() == o.take(k - 1));
                proof {
                    lemma_str_lt_asymmetric(x@, o[k - 1]);
                }
                k -= 1;
            }
            proof {
                if k > 0 {
                    lemma_str_lt_trichotomy(x@, o[k - 1]);
                    assert(o[k - 1] != x@);
                    assert(o.take(k as int).last() == o[k - 1]);
                }
            }
            let ghost xv = x@;
            let ghost before_out = out@;
            out.insert(k, x);
            assert(views(out@) =~= o.insert(k as int, xv));
        }
        i += 1;
    }
    assert(s.take(n as int) == s);
    out
}

proof fn lemma_replace_step(s: Seq<char>, pat: Seq<char>, rep: Seq<char>, i: int)
    requires
        0 <= i < s.len(),
        pat.len() > 0,
    ensures
        replace_all(s.skip(i), pat, rep) == if pat.is_prefix_of(s.skip(i)) {
            rep + replace_all(s.skip(i + pat.len()), pat, rep)
        } else {
            seq![s[i]] + replace_all(s.skip(i + 1), pat, rep)
        },
{
    if pat.is_prefix_of(s.skip(i)) {
        assert(s.skip(i).skip(pat.len() as int) == s.skip(i + pat.len()));
    } else {
        assert(s.skip(i).drop_first() == s.skip(i + 1));
    }
}

/// `s` with every non-overlapping occurrence of `pat`, from the left,
/// replaced by `rep`, as `str::replace` gives it.
pub fn replace_str(s: &str, pat: &str, rep: &str) -> (r: String)
    requires
        pat@.len() > 0,
    ensures
        r@ == replace_all(s@, pat@, rep@),
{
    let x = chars_of(s);
    let p = chars_of(pat);
    let mut out = String::new();
    let mut i: usize = 0;
    assert(x@.skip(0) == x@);
    while i < x.len()
        invariant
            x@ == s@,
            p@ == pat@,
            p@.len() > 0,
            0 <= i <= x@.len(),
            out@ + replace_all(x@.skip(i as int), p@, rep@) == replace_all(s@, pat@, rep@),
        decreases x.len() - i,
    {
        proof {
            lemma_replace_step(x@, p@, rep@, i as int);
        }
        if has_prefix_at(x.as_slice(), i, p.as_slice()) {
            out.append(rep);
            assert(out@ + replace_all(x@.skip(i + p@.len()), p@, rep@) == replace_all(s@, pat@, rep@));
            i += p.len();
        } else {
            push_char(&mut out, x[i]);
            assert(out@ + replace_all(x@.skip(i + 1), p@, rep@) == replace_all(s@, pat@, rep@));
            i += 1;
        }
    }
    assert(x@.skip(i as int).len() == 0);
    out
}

/// Whether `p` occurs in `s` at index `i`.
pub fn has_prefix_at(s: &[char], i: usize, p: &[char]) -> (r: bool)
    requires
        i <= s@.len(),
    ensures
        r == p@.is_prefix_of(s@.skip(i as int)),
{
    let n = s.len();
    if p.len() > n - i {
        return false;
    }
    let mut j: usize = 0;
    while j < p.len()
        invariant
            n == s@.len(),
            i <= s@.len(),
            p@.len() <= s@.len() - i,
            0 <= j <= p@.len(),
            forall|k: int| 0 <= k < j ==> p@[k] == s@.skip(i as int)[k],
        decreases p.len() - j,
    {
        if p[j] != s[i + j] {
            assert(s@.skip(i as int)[j as int] == s@[i + j]);
            return false;
        }
        j += 1;
    }
    true
}

/// `s` with a backslash before every backslash and double quote.
pub fn escape_str(s: &str) -> (r: String)
    ensures
        r@ == escape_quoted(s@),
{
    let x = chars_of(s);
    let mut out = String::new();
    let mut i: usize = 0;
    assert(x@.take(0) =~= Seq::<char>::empty());
    while i < x.len()
        invariant
            x@ == s@,
            0 <= i <= x@.len(),
            out@ == escape_quoted(x@.take(i as int)),
        decreases x.len() - i,
    {
        let c = x[i];
        assert(x@.take(i + 1).drop_last() == x@.take(i as int));
        if c == '\\' {
            push_char(&mut out, '\\');
            push_char(&mut out, '\\');
            assert(out@ == escape_quoted(x@.take(i as int)) + seq!['\\', '\\']);
        } else if c == '"' {
            push_char(&mut out, '\\');
            push_char(&mut out, '"');
            assert(out@ == escape_quoted(x@.take(i as int)) + seq!['\\', '"']);
        } else {
            push_char(&mut out, c);
            assert(out@ == escape_quoted(x@.take(i as int)) + seq![c]);
        }
        i += 1;
    }
    assert(x@.take(x@.len() as int) == x@);
    out
}

/// The decimal digits of `n`, as `u64::to_string` gives them.
pub fn u64_to_decimal(n: u64) -> (r: String)
    ensures
        r@ == decimal(n as nat),
    decreases n,
{
    if n < 10 {
        let mut r = String::new();
        push_char(&mut r, digit(n));
        r
    } else {
        let mut r = u64_to_decimal(n / 10);
        push_char(&mut r, digit(n % 10));
        r
    }
}

/// The character of the digit `d`.
fn digit(d: u64) -> (c: char)
    requires
        d < 10,
    ensures
        c == digit_char(d as nat),
{
    let b: u8 = 48 + (d as u8);
    let c = b as char;
    assert(c == digit_char(d as nat)) by {
        assert(('0' as u32) == 48);
    }
    c
}

/// The decimal form of `i`, as `i64::to_string` gives it.
pub fn i64_to_decimal(i: i64) -> (r: String)
    ensures
        r@ == signed_decimal(i as int),
{
    if i < 0 {
        let magnitude: u64 = if i == i64::MIN {
            9223372036854775808u64
        } else {
            (-i) as u64
        };
        let mut r = String::new();
        push_char(&mut r, '-');
        let d = u64_to_decimal(magnitude);
        r.append(d.as_str());
        r
    } else {
        u64_to_decimal(i as u64)
    }
}

/// The strings of `parts` with `sep` between each two, as `[String]::join` gives them.
pub fn join(parts: &[String], sep: &str) -> (r: String)
    ensures
        r@ == join_seq(views(parts@), sep@),
{
    let ghost v = views(parts@);
    let mut out = String::new();
    let mut i: usize = 0;
    assert(v.take(0) =~= Seq::<Seq<char>>::empty());
    while i < parts.len()
        invariant
            v == views(parts@),
            0 <= i <= parts@.len(),
            out@ == join_seq(v.take(i as int), sep@),
        decreases parts.len() - i,
    {
        assert(v.take(i + 1).drop_last() == v.take(i as int));
        assert(v.take(i + 1).last() == parts@[i as int]@);
        if i > 0 {
            out.append(sep);
        } else {
            assert(v.take(0) =~= Seq::<Seq<char>>::empty());
            assert(out@ =~= Seq::<char>::empty());
        }
        out.append(parts[i].as_str());
        i += 1;
    }
    assert(v.take(parts@.len() as int) == v);
    out
}

/// What `String::from_utf8_lossy` makes of a byte string.
pub uninterp spec fn utf8_lossy(bytes: Seq<u8>) -> Seq<char>;

/// Trusted: `String::from_utf8_lossy`. The text is `utf8_lossy` of the
/// bytes; for valid UTF-8 it is the decoded text. What stands for invalid
/// sequences is not stated.
#[verifier::external_body]
pub(crate) fn text_from_bytes(bytes: &[u8]) -> (r: String)
    ensures
        r@ == utf8_lossy(bytes@),
        vstd::utf8::valid_utf8(bytes@) ==> r@ == vstd::utf8::decode_utf8(bytes@),
{
    String::from_utf8_lossy(bytes).into_owned()
}

} // verus!
