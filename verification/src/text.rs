//! String operations, stated over the characters of a string.
use vstd::prelude::*;
use vstd::utf8::encode_utf8;

verus! {

/// `String::push` appends the given character to the end of the string.
pub assume_specification[ String::push ](s: &mut String, c: char)
    ensures
        final(s)@ == old(s)@.push(c),
;

/// The lower-case form of a text, by the full Unicode mapping.
pub uninterp spec fn unicode_lowercase(s: Seq<char>) -> Seq<char>;

/// Whether a text is made of ASCII characters.
pub open spec fn all_ascii(s: Seq<char>) -> bool {
    forall|i: int| 0 <= i < s.len() ==> (#[trigger] s[i]) as u32 <= 127
}

/// `str::to_lowercase`: the lower-case form depends on the characters alone, and
/// `unicode_lowercase` is the name for it. Of ASCII text it is the ASCII lower-case form; nothing
/// is said of single characters beyond ASCII.
#[verifier::external_body]
fn to_lowercase(s: &str) -> (r: String)
    ensures
        r@ == unicode_lowercase(s@),
        all_ascii(s@) ==> r@ == lower_ascii(s@),
{
    s.to_lowercase()
}

/// The lower-case form of a text.
pub open spec fn lower_case(s: Seq<char>) -> Seq<char> {
    if all_ascii(s) {
        lower_ascii(s)
    } else {
        unicode_lowercase(s)
    }
}

pub fn lower_case_str(s: &str) -> (r: String)
    ensures
        r@ == lower_case(s@),
{
    to_lowercase(s)
}

// ---------------------------------------------------------------------------
// Characters
// ---------------------------------------------------------------------------

/// The characters with the Unicode property White_Space.
pub open spec fn is_white(c: char) -> bool {
    let n = c as u32;
    ||| 0x09 <= n <= 0x0d
    ||| n == 0x20
    ||| n == 0x85
    ||| n == 0xa0
    ||| n == 0x1680
    ||| 0x2000 <= n <= 0x200a
    ||| n == 0x2028
    ||| n == 0x2029
    ||| n == 0x202f
    ||| n == 0x205f
    ||| n == 0x3000
}

pub fn is_white_char(c: char) -> (r: bool)
    ensures
        r == is_white(c),
{
    let n: u32 = c as u32;
    (0x09 <= n && n <= 0x0d) || n == 0x20 || n == 0x85 || n == 0xa0 || n == 0x1680
        || (0x2000 <= n && n <= 0x200a) || n == 0x2028 || n == 0x2029 || n == 0x202f
        || n == 0x205f || n == 0x3000
}

/// The ASCII lower-case form of a character; other characters stay as they are.
pub open spec fn lower_char(c: char) -> char {
    if 'A' <= c <= 'Z' {
        ((c as u8) + 32) as u8 as char
    } else {
        c
    }
}

fn lower_char_exec(c: char) -> (r: char)
    ensures
        r == lower_char(c),
{
    if 'A' <= c && c <= 'Z' {
        ((c as u8) + 32) as char
    } else {
        c
    }
}

/// The characters of `s`, one by one.
pub fn chars_of(s: &str) -> (r: Vec<char>)
    ensures
        r@ == s@,
{
    let mut out: Vec<char> = Vec::new();
    for c in it: s.chars()
        invariant
            out@ == it.seq().take(it.index()),
            it.seq() == s@,
    {
        out.push(c);
    }
    out
}

/// Whether two texts have the same characters.
pub fn same(a: &str, b: &str) -> (r: bool)
    ensures
        r == (a@ == b@),
{
    let x = chars_of(a);
    let y = chars_of(b);
    if x.len() != y.len() {
        return false;
    }
    for i in 0..x.len()
        invariant
            x.len() == y.len(),
            x@ == a@,
            y@ == b@,
            forall|j: int| 0 <= j < i ==> x@[j] == y@[j],
    {
        if x[i] != y[i] {
            assert(a@[i as int] != b@[i as int]);
            return false;
        }
    }
    assert(x@ =~= y@);
    true
}

// ---------------------------------------------------------------------------
// Views of collections of strings
// ---------------------------------------------------------------------------

pub open spec fn views(v: Seq<String>) -> Seq<Seq<char>> {
    v.map_values(|s: String| s@)
}

pub open spec fn opt_view(v: Option<String>) -> Option<Seq<char>> {
    match v {
        Some(s) => Some(s@),
        None => None,
    }
}

pub open spec fn opt_str_view(v: Option<&str>) -> Option<Seq<char>> {
    match v {
        Some(s) => Some(s@),
        None => None,
    }
}

pub open spec fn opt_views(v: Option<Vec<String>>) -> Option<Seq<Seq<char>>> {
    match v {
        Some(s) => Some(views(s@)),
        None => None,
    }
}

pub broadcast proof fn views_push(v: Seq<String>, s: String)
    ensures
        #[trigger] views(v.push(s)) == views(v).push(s@),
{
    assert(views(v.push(s)) =~= views(v).push(s@));
}

pub broadcast proof fn views_len(v: Seq<String>)
    ensures
        #[trigger] views(v).len() == v.len(),
{
}

/// Whether `list` holds the text `s`.
pub fn holds(list: &Vec<String>, s: &str) -> (r: bool)
    ensures
        r == views(list@).contains(s@),
{
    for i in 0..list.len()
        invariant
            forall|j: int| 0 <= j < i ==> list@[j]@ != s@,
    {
        if same(list[i].as_str(), s) {
            assert(views(list@)[i as int] == s@);
            return true;
        }
    }
    assert forall|j: int| 0 <= j < views(list@).len() implies views(list@)[j] != s@ by {
        assert(views(list@)[j] == list@[j]@);
    }
    false
}

/// A copy of a list of texts.
pub fn copy_texts(list: &Vec<String>) -> (r: Vec<String>)
    ensures
        views(r@) == views(list@),
        r@ == list@,
{
    let mut out: Vec<String> = Vec::new();
    for i in 0..list.len()
        invariant
            out@ == list@.take(i as int),
    {
        out.push(list[i].clone());
    }
    assert(list@.take(list@.len() as int) =~= list@);
    out
}

// ---------------------------------------------------------------------------
// Trimming
// ---------------------------------------------------------------------------

pub open spec fn trim_start(s: Seq<char>) -> Seq<char>
    decreases s.len(),
{
    if s.len() > 0 && is_white(s[0]) {
        trim_start(s.drop_first())
    } else {
        s
    }
}

pub open spec fn trim_end(s: Seq<char>) -> Seq<char>
    decreases s.len(),
{
    if s.len() > 0 && is_white(s.last()) {
        trim_end(s.drop_last())
    } else {
        s
    }
}

/// `s` without the white space at its start and at its end.
pub open spec fn trim(s: Seq<char>) -> Seq<char> {
    trim_end(trim_start(s))
}

/// `s` without the characters `c` at its start.
pub open spec fn trim_start_of(s: Seq<char>, c: char) -> Seq<char>
    decreases s.len(),
{
    if s.len() > 0 && s[0] == c {
        trim_start_of(s.drop_first(), c)
    } else {
        s
    }
}

/// `s` without the characters `c` at its end.
pub open spec fn trim_end_of(s: Seq<char>, c: char) -> Seq<char>
    decreases s.len(),
{
    if s.len() > 0 && s.last() == c {
        trim_end_of(s.drop_last(), c)
    } else {
        s
    }
}

pub open spec fn trim_of(s: Seq<char>, c: char) -> Seq<char> {
    trim_end_of(trim_start_of(s, c), c)
}

proof fn lemma_trim_start_step(s: Seq<char>, i: int)
    requires
        0 <= i < s.len(),
        is_white(s[i]),
    ensures
        trim_start(s.skip(i)) == trim_start(s.skip(i + 1)),
{
    assert(s.skip(i).drop_first() =~= s.skip(i + 1));
}

pub fn trim_start_str<'a>(s: &'a str) -> (r: &'a str)
    ensures
        r@ == trim_start(s@),
{
    let chars = chars_of(s);
    let n: usize = chars.len();
    let mut i: usize = 0;
    assert(s@.skip(0) =~= s@);
    while i < n && is_white_char(chars[i])
        invariant
            i <= n,
            n == chars.len(),
            chars@ == s@,
            trim_start(s@) == trim_start(s@.skip(i as int)),
        decreases n - i,
    {
        proof {
            lemma_trim_start_step(s@, i as int);
        }
        i = i + 1;
    }
    assert(s@.skip(i as int) =~= s@.subrange(i as int, n as int));
    s.substring_char(i, n)
}

pub fn trim_end_str<'a>(s: &'a str) -> (r: &'a str)
    ensures
        r@ == trim_end(s@),
{
    let chars = chars_of(s);
    let mut n: usize = chars.len();
    assert(s@.take(n as int) =~= s@);
    while n > 0 && is_white_char(chars[n - 1])
        invariant
            n <= chars.len(),
            chars@ == s@,
            trim_end(s@) == trim_end(s@.take(n as int)),
        decreases n,
    {
        assert(s@.take(n as int).drop_last() =~= s@.take(n - 1));
        n = n - 1;
    }
    assert(s@.take(n as int) =~= s@.subrange(0, n as int));
    s.substring_char(0, n)
}

/// The text without the white space around it.
pub fn trim_str<'a>(s: &'a str) -> (r: &'a str)
    ensures
        r@ == trim(s@),
{
    trim_end_str(trim_start_str(s))
}

/// Whether the text holds nothing but white space.
pub fn is_blank(s: &str) -> (r: bool)
    ensures
        r == (trim(s@).len() == 0),
{
    trim_str(s).is_empty()
}

pub fn trim_start_of_str<'a>(s: &'a str, c: char) -> (r: &'a str)
    ensures
        r@ == trim_start_of(s@, c),
{
    let chars = chars_of(s);
    let n: usize = chars.len();
    let mut i: usize = 0;
    assert(s@.skip(0) =~= s@);
    while i < n && chars[i] == c
        invariant
            i <= n,
            n == chars.len(),
            chars@ == s@,
            trim_start_of(s@, c) == trim_start_of(s@.skip(i as int), c),
        decreases n - i,
    {
        assert(s@.skip(i as int).drop_first() =~= s@.skip(i + 1));
        i = i + 1;
    }
    assert(s@.skip(i as int) =~= s@.subrange(i as int, n as int));
    s.substring_char(i, n)
}

pub fn trim_end_of_str<'a>(s: &'a str, c: char) -> (r: &'a str)
    ensures
        r@ == trim_end_of(s@, c),
{
    let chars = chars_of(s);
    let mut n: usize = chars.len();
    assert(s@.take(n as int) =~= s@);
    while n > 0 && chars[n - 1] == c
        invariant
            n <= chars.len(),
            chars@ == s@,
            trim_end_of(s@, c) == trim_end_of(s@.take(n as int), c),
        decreases n,
    {
        assert(s@.take(n as int).drop_last() =~= s@.take(n - 1));
        n = n - 1;
    }
    assert(s@.take(n as int) =~= s@.subrange(0, n as int));
    s.substring_char(0, n)
}

pub fn trim_of_str<'a>(s: &'a str, c: char) -> (r: &'a str)
    ensures
        r@ == trim_of(s@, c),
{
    trim_end_of_str(trim_start_of_str(s, c), c)
}

/// A text without white space at its ends.
pub open spec fn is_trimmed(s: Seq<char>) -> bool {
    s.len() == 0 || (!is_white(s[0]) && !is_white(s.last()))
}

proof fn lemma_trim_start_head(s: Seq<char>)
    ensures
        trim_start(s).len() > 0 ==> !is_white(trim_start(s)[0]),
        trim_start(s).len() <= s.len(),
        trim_start(s) == s.skip(s.len() - trim_start(s).len()),
    decreases s.len(),
{
    if s.len() > 0 && is_white(s[0]) {
        lemma_trim_start_head(s.drop_first());
        let t = trim_start(s.drop_first());
        assert(s.drop_first().skip(s.len() - 1 - t.len()) =~= s.skip(s.len() - t.len()));
    } else {
        assert(s.skip(0) =~= s);
    }
}

proof fn lemma_trim_end_last(s: Seq<char>)
    ensures
        trim_end(s).len() > 0 ==> !is_white(trim_end(s).last()) && trim_end(s)[0] == s[0],
        trim_end(s).len() <= s.len(),
    decreases s.len(),
{
    if s.len() > 0 && is_white(s.last()) {
        lemma_trim_end_last(s.drop_last());
    }
}

/// A trimmed text has no white space at its ends, and trimming changes no text that has none there.
pub proof fn lemma_trim_trimmed(s: Seq<char>)
    ensures
        is_trimmed(trim(s)),
        is_trimmed(s) ==> trim(s) == s,
        trim(trim(s)) == trim(s),
{
    lemma_trim_start_head(s);
    lemma_trim_end_last(trim_start(s));
    lemma_trim_start_head(trim(s));
    lemma_trim_end_last(trim_start(trim(s)));
}

/// Whether a text is nothing but white space.
pub open spec fn all_white(s: Seq<char>) -> bool {
    forall|i: int| 0 <= i < s.len() ==> is_white(#[trigger] s[i])
}

proof fn lemma_trim_start_white(a: Seq<char>, s: Seq<char>)
    requires
        all_white(a),
    ensures
        trim_start(a + s) == trim_start(s),
    decreases a.len(),
{
    if a.len() == 0 {
        assert(a + s =~= s);
    } else {
        let rest = a.drop_first();
        assert forall|i: int| 0 <= i < rest.len() implies is_white(#[trigger] rest[i]) by {
            assert(rest[i] == a[i + 1]);
        }
        lemma_trim_start_white(rest, s);
        assert((a + s).drop_first() =~= rest + s);
        assert((a + s)[0] == a[0]);
    }
}

proof fn lemma_trim_end_white(s: Seq<char>, b: Seq<char>)
    requires
        all_white(b),
    ensures
        trim_end(s + b) == trim_end(s),
    decreases b.len(),
{
    if b.len() == 0 {
        assert(s + b =~= s);
    } else {
        lemma_trim_end_white(s, b.drop_last());
        assert((s + b).drop_last() =~= s + b.drop_last());
        assert((s + b).last() == b.last());
    }
}

/// What trimming a text leaves is not changed by white space behind it.
proof fn lemma_trim_start_behind(s: Seq<char>, b: Seq<char>)
    requires
        all_white(b),
    ensures
        trim_end(trim_start(s + b)) == trim_end(trim_start(s)),
    decreases s.len(),
{
    if s.len() == 0 {
        assert(s + b =~= b + Seq::<char>::empty());
        lemma_trim_start_white(b, Seq::empty());
    } else if is_white(s[0]) {
        assert((s + b).drop_first() =~= s.drop_first() + b);
        lemma_trim_start_behind(s.drop_first(), b);
    } else {
        assert((s + b)[0] == s[0]);
        lemma_trim_end_white(s, b);
    }
}

/// What trimming leaves of ASCII text is ASCII text.
pub proof fn lemma_trim_ascii(s: Seq<char>)
    requires
        all_ascii(s),
    ensures
        all_ascii(trim(s)),
{
    lemma_trim_start_head(s);
    lemma_trim_end_part(trim_start(s));
    let t = trim_start(s);
    assert forall|i: int| 0 <= i < trim(s).len() implies (#[trigger] trim(s)[i]) as u32 <= 127 by {
        assert(trim(s)[i] == t[i]);
        assert(t[i] == s[i + s.len() - t.len()]);
    }
}

proof fn lemma_trim_end_part(s: Seq<char>)
    ensures
        trim_end(s).len() <= s.len(),
        trim_end(s) == s.take(trim_end(s).len() as int),
    decreases s.len(),
{
    if s.len() > 0 && is_white(s.last()) {
        lemma_trim_end_part(s.drop_last());
        let n = trim_end(s.drop_last()).len() as int;
        assert(s.drop_last().take(n) =~= s.take(n));
    } else {
        assert(s.take(s.len() as int) =~= s);
    }
}

/// White space around a text makes no difference to trimming it.
pub proof fn lemma_trim_white(a: Seq<char>, s: Seq<char>, b: Seq<char>)
    requires
        all_white(a),
        all_white(b),
    ensures
        trim(a + s + b) == trim(s),
{
    assert(a + s + b =~= a + (s + b));
    lemma_trim_start_white(a, s + b);
    lemma_trim_start_behind(s, b);
}

/// The characters at the end that are trimmed off make no difference.
pub proof fn lemma_trim_end_of_more(s: Seq<char>, c: char, b: Seq<char>)
    requires
        forall|i: int| 0 <= i < b.len() ==> (#[trigger] b[i]) == c,
    ensures
        trim_end_of(s + b, c) == trim_end_of(s, c),
    decreases b.len(),
{
    if b.len() == 0 {
        assert(s + b =~= s);
    } else {
        lemma_trim_end_of_more(s, c, b.drop_last());
        assert((s + b).drop_last() =~= s + b.drop_last());
        assert((s + b).last() == b.last());
    }
}

/// The trimmed text, unless nothing is left of it.
pub open spec fn present(s: Seq<char>) -> Option<Seq<char>> {
    if trim(s).len() > 0 {
        Some(trim(s))
    } else {
        None
    }
}

/// The trimmed text of an optional field, unless nothing is left of it.
pub open spec fn opt_present(v: Option<Seq<char>>) -> Option<Seq<char>> {
    match v {
        Some(s) => present(s),
        None => None,
    }
}

pub fn present_str<'a>(s: &'a str) -> (r: Option<&'a str>)
    ensures
        opt_str_view(r) == present(s@),
{
    let t = trim_str(s);
    if t.is_empty() {
        None
    } else {
        Some(t)
    }
}

pub fn present_opt<'a>(v: &'a Option<String>) -> (r: Option<&'a str>)
    ensures
        opt_str_view(r) == opt_present(opt_view(*v)),
{
    match v {
        Some(s) => present_str(s.as_str()),
        None => None,
    }
}

// ---------------------------------------------------------------------------
// Searching
// ---------------------------------------------------------------------------

pub open spec fn starts_with(s: Seq<char>, p: Seq<char>) -> bool {
    p.len() <= s.len() && s.take(p.len() as int) == p
}

pub open spec fn ends_with(s: Seq<char>, p: Seq<char>) -> bool {
    p.len() <= s.len() && s.skip(s.len() - p.len()) == p
}

pub open spec fn occurs_at(s: Seq<char>, p: Seq<char>, i: int) -> bool {
    0 <= i && i + p.len() <= s.len() && s.subrange(i, i + p.len()) == p
}

/// The first place at or after `i` where `p` occurs in `s`.
pub open spec fn find_from(s: Seq<char>, p: Seq<char>, i: int) -> Option<int>
    decreases s.len() + 1 - i,
{
    if i + p.len() > s.len() {
        None
    } else if occurs_at(s, p, i) {
        Some(i)
    } else {
        find_from(s, p, i + 1)
    }
}

/// The first place where `p` occurs in `s`.
pub open spec fn find(s: Seq<char>, p: Seq<char>) -> Option<int> {
    find_from(s, p, 0)
}

pub open spec fn contains(s: Seq<char>, p: Seq<char>) -> bool {
    exists|i: int| occurs_at(s, p, i)
}

pub proof fn lemma_find_from(s: Seq<char>, p: Seq<char>, i: int)
    requires
        0 <= i,
    ensures
        find_from(s, p, i) matches Some(k) ==> i <= k && occurs_at(s, p, k),
        find_from(s, p, i) matches Some(k) ==> forall|j: int| i <= j < k ==> !occurs_at(s, p, j),
        find_from(s, p, i) is None ==> forall|j: int| i <= j ==> !occurs_at(s, p, j),
    decreases s.len() + 1 - i,
{
    if i + p.len() > s.len() {
    } else if occurs_at(s, p, i) {
    } else {
        lemma_find_from(s, p, i + 1);
    }
}

fn chars_match(s: &Vec<char>, p: &Vec<char>, at: usize) -> (r: bool)
    requires
        at + p.len() <= s.len(),
    ensures
        r == occurs_at(s@, p@, at as int),
{
    for k in 0..p.len()
        invariant
            at + p.len() <= s.len(),
            forall|j: int| 0 <= j < k ==> s@[at + j] == p@[j],
    {
        if s[at + k] != p[k] {
            assert(s@.subrange(at as int, at + p@.len())[k as int] != p@[k as int]);
            return false;
        }
    }
    assert(s@.subrange(at as int, at + p@.len()) =~= p@);
    true
}

fn find_chars(s: &Vec<char>, p: &Vec<char>) -> (r: Option<usize>)
    ensures
        r matches Some(i) ==> find(s@, p@) == Some(i as int) && i + p@.len() <= s@.len(),
        r is None ==> find(s@, p@) is None,
{
    if p.len() > s.len() {
        return None;
    }
    let last: usize = s.len() - p.len();
    let mut i: usize = 0;
    while i <= last
        invariant
            last == s.len() - p.len(),
            p.len() <= s.len(),
            i <= last + 1,
            find(s@, p@) == find_from(s@, p@, i as int),
        decreases last + 1 - i,
    {
        if chars_match(s, p, i) {
            return Some(i);
        }
        if i == last {
            assert(find_from(s@, p@, i + 1) is None);
            return None;
        }
        i = i + 1;
    }
    None
}

/// The first place, counted in characters, where `p` occurs in `s`.
pub fn find_str(s: &str, p: &str) -> (r: Option<usize>)
    ensures
        r matches Some(i) ==> find(s@, p@) == Some(i as int) && i + p@.len() <= s@.len(),
        r is None ==> find(s@, p@) is None,
{
    find_chars(&chars_of(s), &chars_of(p))
}

pub fn contains_str(s: &str, p: &str) -> (r: bool)
    ensures
        r == contains(s@, p@),
{
    proof {
        lemma_find_from(s@, p@, 0);
    }
    match find_str(s, p) {
        Some(_) => true,
        None => false,
    }
}

pub fn starts_with_str(s: &str, p: &str) -> (r: bool)
    ensures
        r == starts_with(s@, p@),
{
    let prefix = chars_of(p);
    let mut matched: usize = 0;
    for c in it: s.chars()
        invariant
            it.seq() == s@,
            prefix@ == p@,
            matched == it.index(),
            matched <= prefix@.len(),
            s@.take(matched as int) == p@.take(matched as int),
    {
        if matched == prefix.len() {
            assert(p@.take(matched as int) =~= p@);
            return true;
        }
        if c != prefix[matched] {
            assert(p@.len() <= s@.len() ==> s@.take(p@.len() as int)[matched as int] == c);
            return false;
        }
        assert(s@.take(matched + 1) =~= s@.take(matched as int).push(c));
        assert(p@.take(matched + 1) =~= p@.take(matched as int).push(c));
        matched = matched + 1;
    }
    assert(matched == prefix.len() ==> p@.take(matched as int) =~= p@);
    matched == prefix.len()
}

pub fn ends_with_str(s: &str, p: &str) -> (r: bool)
    ensures
        r == ends_with(s@, p@),
{
    let x = chars_of(s);
    let y = chars_of(p);
    if y.len() > x.len() {
        return false;
    }
    let at: usize = x.len() - y.len();
    assert(s@.skip(at as int) =~= s@.subrange(at as int, at + p@.len()));
    chars_match(&x, &y, at)
}

/// What follows the prefix `p` in `s`.
pub open spec fn strip_prefix(s: Seq<char>, p: Seq<char>) -> Option<Seq<char>> {
    if starts_with(s, p) {
        Some(s.skip(p.len() as int))
    } else {
        None
    }
}

/// What stands before the suffix `p` in `s`.
pub open spec fn strip_suffix(s: Seq<char>, p: Seq<char>) -> Option<Seq<char>> {
    if ends_with(s, p) {
        Some(s.take(s.len() - p.len()))
    } else {
        None
    }
}

pub fn strip_prefix_str<'a>(s: &'a str, p: &str) -> (r: Option<&'a str>)
    ensures
        opt_str_view(r) == strip_prefix(s@, p@),
{
    if starts_with_str(s, p) {
        let n: usize = s.unicode_len();
        let k: usize = p.unicode_len();
        assert(s@.skip(k as int) =~= s@.subrange(k as int, n as int));
        Some(s.substring_char(k, n))
    } else {
        None
    }
}

pub fn strip_suffix_str<'a>(s: &'a str, p: &str) -> (r: Option<&'a str>)
    ensures
        opt_str_view(r) == strip_suffix(s@, p@),
{
    if ends_with_str(s, p) {
        let n: usize = s.unicode_len();
        let k: usize = p.unicode_len();
        assert(s@.take(n - k) =~= s@.subrange(0, n - k));
        Some(s.substring_char(0, n - k))
    } else {
        None
    }
}

// ---------------------------------------------------------------------------
// Replacing, splitting, joining
// ---------------------------------------------------------------------------

/// `s` with every occurrence of `from`, looked for from the left, replaced by `to`.
pub open spec fn replace(s: Seq<char>, from: Seq<char>, to: Seq<char>) -> Seq<char>
    decreases s.len(),
{
    match find(s, from) {
        Some(i) => if from.len() > 0 && 0 <= i && i + from.len() <= s.len() {
            s.take(i) + to + replace(s.skip(i + from.len()), from, to)
        } else {
            s
        },
        None => s,
    }
}

pub fn replace_str(s: &str, from: &str, to: &str) -> (r: String)
    requires
        from@.len() > 0,
    ensures
        r@ == replace(s@, from@, to@),
{
    let mut out = String::new();
    let mut rest = s;
    let ghost goal = replace(s@, from@, to@);
    assert(out@ + replace(rest@, from@, to@) =~= goal);
    loop
        invariant
            from@.len() > 0,
            goal == replace(s@, from@, to@),
            out@ + replace(rest@, from@, to@) == goal,
        decreases rest@.len(),
    {
        let k: usize = from.unicode_len();
        match find_str(rest, from) {
            Some(i) => {
                let n: usize = rest.unicode_len();
                let head = rest.substring_char(0, i);
                let tail = rest.substring_char(i + k, n);
                let ghost before = out@;
                out.append(head);
                out.append(to);
                assert(rest@.take(i as int) =~= head@);
                assert(rest@.skip(i + k) =~= tail@);
                assert(out@ + replace(tail@, from@, to@) =~= before + (head@ + to@ + replace(
                    tail@,
                    from@,
                    to@,
                )));
                rest = tail;
            },
            None => {
                out.append(rest);
                return out;
            },
        }
    }
}

/// A text that does not hold the first character of what is replaced stays as it is.
pub proof fn lemma_replace_nothing(s: Seq<char>, from: Seq<char>, to: Seq<char>)
    requires
        from.len() > 0,
        !s.contains(from[0]),
    ensures
        replace(s, from, to) == s,
{
    lemma_find_from(s, from, 0);
    if let Some(i) = find(s, from) {
        assert(s.subrange(i, i + from.len())[0] == from[0]);
        assert(s[i] == from[0]);
    }
}

proof fn lemma_found_at(s: Seq<char>, p: Seq<char>, i: int, n: int)
    requires
        p.len() > 0,
        0 <= i <= n,
        occurs_at(s, p, n),
        forall|j: int| 0 <= j < n ==> #[trigger] s[j] != p[0],
    ensures
        find_from(s, p, i) == Some(n),
    decreases n - i,
{
    if i < n {
        assert(s[i] != p[0]);
        if occurs_at(s, p, i) {
            assert(s.subrange(i, i + p.len())[0] == s[i]);
        }
        lemma_found_at(s, p, i + 1, n);
    }
}

proof fn lemma_found_behind(a: Seq<char>, from: Seq<char>, b: Seq<char>)
    requires
        from.len() > 0,
        !a.contains(from[0]),
    ensures
        find(a + from + b, from) == Some(a.len() as int),
{
    let s = a + from + b;
    let n = a.len() as int;
    assert(s.subrange(n, n + from.len()) =~= from);
    assert forall|j: int| 0 <= j < n implies #[trigger] s[j] != from[0] by {
        assert(s[j] == a[j]);
    }
    lemma_found_at(s, from, 0, n);
}

proof fn lemma_in_neither(a: Seq<char>, b: Seq<char>, c: char)
    requires
        !a.contains(c),
        !b.contains(c),
    ensures
        !(a + b).contains(c),
{
    if (a + b).contains(c) {
        let i = choose|i: int| 0 <= i < (a + b).len() && (a + b)[i] == c;
        if i < a.len() {
            assert(a[i] == c);
        } else {
            assert(b[i - a.len()] == c);
        }
    }
}

/// What is replaced gives way to what it is replaced by, and what stands before and behind it stays.
pub proof fn law_replace(a: Seq<char>, from: Seq<char>, b: Seq<char>, to: Seq<char>)
    requires
        from.len() > 0,
        !a.contains(from[0]),
        !b.contains(from[0]),
    ensures
        replace(a + from + b, from, to) == a + to + b,
        replace(a + b, from, to) == a + b,
{
    let s = a + from + b;
    let n = a.len() as int;
    lemma_found_behind(a, from, b);
    lemma_in_neither(a, b, from[0]);
    lemma_replace_nothing(a + b, from, to);
    lemma_replace_nothing(b, from, to);
    assert(s.take(n) =~= a);
    assert(s.skip(n + from.len()) =~= b);
    assert(replace(s, from, to) == s.take(n) + to + replace(s.skip(n + from.len()), from, to));
}

/// A mark in double braces is not taken for another one that differs from it at place `x`.
pub proof fn lemma_replace_other(
    a: Seq<char>,
    mark: Seq<char>,
    b: Seq<char>,
    other: Seq<char>,
    to: Seq<char>,
    x: int,
)
    requires
        !a.contains('{'),
        !b.contains('{'),
        2 < x < mark.len(),
        x < other.len(),
        mark[x] != other[x] || (mark[2] != other[2]),
        mark[0] == '{' && mark[1] == '{',
        forall|i: int| 2 <= i < mark.len() ==> #[trigger] mark[i] != '{',
        other[0] == '{' && other[1] == '{',
    ensures
        replace(a + mark + b, other, to) == a + mark + b,
{
    let s = a + mark + b;
    lemma_find_from(s, other, 0);
    if let Some(i) = find(s, other) {
        let part = s.subrange(i, i + other.len());
        assert(part[0] == '{' && part[1] == '{' && part[2] == other[2] && part[x] == other[x]);
        assert(s[i] == '{' && s[i + 1] == '{');
        if i < a.len() {
            assert(a[i] == '{');
        } else if i >= a.len() + mark.len() {
            assert(b[i - a.len() - mark.len()] == '{');
        } else {
            let k = i - a.len();
            assert(mark[k] == '{');
            if k == 1 {
                if mark.len() > 2 {
                    assert(s[i + 1] == mark[2]);
                }
            } else if k == 0 {
                assert(s[i + 2] == mark[2]);
                assert(s[i + x] == mark[x]);
            } else {
                assert(mark[k] != '{');
            }
        }
    }
}

/// `s` with every character spelled as `f` says.
pub open spec fn each_char(s: Seq<char>, f: spec_fn(char) -> Seq<char>) -> Seq<char>
    decreases s.len(),
{
    if s.len() == 0 {
        Seq::empty()
    } else {
        f(s[0]) + each_char(s.drop_first(), f)
    }
}

/// A spelling that changes one character.
pub open spec fn spelling(c: char, to: Seq<char>) -> spec_fn(char) -> Seq<char> {
    |x: char|
        if x == c {
            to
        } else {
            seq![x]
        }
}

/// The spelling of a text goes part by part.
pub proof fn lemma_each_char_add(a: Seq<char>, b: Seq<char>, f: spec_fn(char) -> Seq<char>)
    ensures
        each_char(a + b, f) == each_char(a, f) + each_char(b, f),
    decreases a.len(),
{
    if a.len() == 0 {
        assert(a + b =~= b);
    } else {
        lemma_each_char_add(a.drop_first(), b, f);
        assert((a + b).drop_first() =~= a.drop_first() + b);
        assert((a + b)[0] == a[0]);
    }
}

/// Two spellings that agree on the characters of a text spell it alike.
pub proof fn lemma_each_char_same(
    s: Seq<char>,
    f: spec_fn(char) -> Seq<char>,
    g: spec_fn(char) -> Seq<char>,
)
    requires
        forall|i: int| 0 <= i < s.len() ==> f(#[trigger] s[i]) == g(s[i]),
    ensures
        each_char(s, f) == each_char(s, g),
    decreases s.len(),
{
    if s.len() > 0 {
        let rest = s.drop_first();
        assert forall|i: int| 0 <= i < rest.len() implies f(#[trigger] rest[i]) == g(rest[i]) by {
            assert(rest[i] == s[i + 1]);
        }
        lemma_each_char_same(rest, f, g);
        assert(f(s[0]) == g(s[0]));
    }
}

/// Two spellings one after the other are one.
pub proof fn lemma_each_char_twice(
    s: Seq<char>,
    f: spec_fn(char) -> Seq<char>,
    g: spec_fn(char) -> Seq<char>,
    h: spec_fn(char) -> Seq<char>,
)
    requires
        forall|c: char| each_char(#[trigger] f(c), g) == h(c),
    ensures
        each_char(each_char(s, f), g) == each_char(s, h),
    decreases s.len(),
{
    if s.len() > 0 {
        lemma_each_char_twice(s.drop_first(), f, g, h);
        lemma_each_char_add(f(s[0]), each_char(s.drop_first(), f), g);
        assert(each_char(f(s[0]), g) == h(s[0]));
    }
}

/// Replacing one character is spelling it otherwise.
pub proof fn lemma_replace_char(s: Seq<char>, c: char, to: Seq<char>)
    ensures
        replace(s, seq![c], to) == each_char(s, spelling(c, to)),
    decreases s.len(),
{
    let f = spelling(c, to);
    lemma_find_from(s, seq![c], 0);
    match find(s, seq![c]) {
        Some(i) => {
            assert(s.subrange(i, i + 1)[0] == c);
            let head = s.take(i);
            let tail = s.skip(i + 1);
            assert forall|k: int| 0 <= k < head.len() implies (#[trigger] head[k]) != c by {
                if head[k] == c {
                    assert(s.subrange(k, k + 1) =~= seq![c]);
                    assert(occurs_at(s, seq![c], k));
                }
            }
            lemma_unspelled(head, c, to);
            lemma_replace_char(tail, c, to);
            assert(s =~= head + (seq![c] + tail));
            lemma_each_char_add(head, seq![c] + tail, f);
            lemma_each_char_add(seq![c], tail, f);
            reveal_with_fuel(each_char, 2);
            assert(each_char(seq![c], f) =~= to);
            assert(replace(s, seq![c], to) =~= each_char(s, f));
        },
        None => {
            assert forall|k: int| 0 <= k < s.len() implies (#[trigger] s[k]) != c by {
                if s[k] == c {
                    assert(s.subrange(k, k + 1) =~= seq![c]);
                    assert(occurs_at(s, seq![c], k));
                }
            }
            lemma_unspelled(s, c, to);
        },
    }
}

proof fn lemma_unspelled(s: Seq<char>, c: char, to: Seq<char>)
    requires
        forall|k: int| 0 <= k < s.len() ==> (#[trigger] s[k]) != c,
    ensures
        each_char(s, spelling(c, to)) == s,
    decreases s.len(),
{
    if s.len() > 0 {
        let rest = s.drop_first();
        assert forall|k: int| 0 <= k < rest.len() implies (#[trigger] rest[k]) != c by {
            assert(rest[k] == s[k + 1]);
        }
        lemma_unspelled(rest, c, to);
        assert(s[0] != c);
        assert(seq![s[0]] + rest =~= s);
    }
}

/// The pieces of `s` between the characters `c`.
pub open spec fn split(s: Seq<char>, c: char) -> Seq<Seq<char>>
    decreases s.len(),
{
    if s.len() == 0 {
        seq![Seq::empty()]
    } else {
        let front = split(s.drop_last(), c);
        if s.last() == c {
            front.push(Seq::empty())
        } else {
            front.drop_last().push(front.last().push(s.last()))
        }
    }
}

pub proof fn lemma_split_nonempty(s: Seq<char>, c: char)
    ensures
        split(s, c).len() > 0,
    decreases s.len(),
{
    if s.len() > 0 {
        lemma_split_nonempty(s.drop_last(), c);
    }
}

pub fn split_str(s: &str, c: char) -> (r: Vec<String>)
    ensures
        views(r@) == split(s@, c),
        r@.len() > 0,
{
    broadcast use views_push;

    let chars = chars_of(s);
    let mut out: Vec<String> = Vec::new();
    let mut piece = String::new();
    assert(views(out@).push(piece@) =~= split(s@.take(0), c));
    for i in 0..chars.len()
        invariant
            chars@ == s@,
            views(out@).push(piece@) == split(s@.take(i as int), c),
    {
        assert(s@.take(i + 1).drop_last() =~= s@.take(i as int));
        assert(s@.take(i + 1).last() == s@[i as int]);
        let ghost front = views(out@).push(piece@);
        assert(front.last() == piece@);
        assert(front.drop_last() =~= views(out@));
        if chars[i] == c {
            out.push(piece);
            piece = String::new();
            assert(views(out@).push(piece@) =~= split(s@.take(i + 1), c));
        } else {
            piece.push(chars[i]);
            assert(views(out@).push(piece@) =~= split(s@.take(i + 1), c));
        }
    }
    assert(s@.take(s@.len() as int) =~= s@);
    out.push(piece);
    out
}

/// A line without the carriage return at its end.
pub open spec fn line_body(s: Seq<char>) -> Seq<char> {
    if s.len() > 0 && s.last() == '\r' {
        s.drop_last()
    } else {
        s
    }
}

/// The lines of a text: the pieces between line feeds, without a carriage return at
/// their end, and without an empty piece after the last line feed. The last piece, when
/// no line feed ends it, keeps its carriage return.
pub open spec fn lines(s: Seq<char>) -> Seq<Seq<char>> {
    let pieces = split(s, '\n');
    let ended = pieces.drop_last().map_values(|p: Seq<char>| line_body(p));
    if pieces.last().len() == 0 {
        ended
    } else {
        ended.push(pieces.last())
    }
}

fn line_body_str<'a>(s: &'a str) -> (r: &'a str)
    ensures
        r@ == line_body(s@),
{
    let n: usize = s.unicode_len();
    if n > 0 && s.get_char(n - 1) == '\r' {
        assert(s@.drop_last() =~= s@.subrange(0, n - 1));
        s.substring_char(0, n - 1)
    } else {
        s
    }
}

pub fn lines_of(s: &str) -> (r: Vec<String>)
    ensures
        views(r@) == lines(s@),
{
    broadcast use views_push;

    let pieces = split_str(s, '\n');
    let mut out: Vec<String> = Vec::new();
    let last: usize = pieces.len() - 1;
    let ghost ended = split(s@, '\n').drop_last().map_values(|p: Seq<char>| line_body(p));
    for i in 0..last
        invariant
            last == pieces.len() - 1,
            views(pieces@) == split(s@, '\n'),
            ended == split(s@, '\n').drop_last().map_values(|p: Seq<char>| line_body(p)),
            views(out@) == ended.take(i as int),
    {
        assert(views(pieces@)[i as int] == pieces@[i as int]@);
        assert(ended.take(i + 1) =~= ended.take(i as int).push(ended[i as int]));
        out.push(line_body_str(pieces[i].as_str()).to_string());
    }
    assert(ended.take(last as int) =~= ended);
    assert(views(pieces@).last() == pieces@[last as int]@);
    if !pieces[last].as_str().is_empty() {
        out.push(pieces[last].clone());
    }
    out
}

/// The texts one after the other, with `sep` between them.
pub open spec fn join(parts: Seq<Seq<char>>, sep: Seq<char>) -> Seq<char>
    decreases parts.len(),
{
    if parts.len() == 0 {
        Seq::empty()
    } else if parts.len() == 1 {
        parts[0]
    } else {
        join(parts.drop_last(), sep) + sep + parts.last()
    }
}

/// A text without the character that it is split at is one piece.
pub proof fn lemma_no_split(s: Seq<char>, c: char)
    requires
        !s.contains(c),
    ensures
        split(s, c) == seq![s],
    decreases s.len(),
{
    if s.len() == 0 {
        assert(s =~= Seq::empty());
        assert(split(s, c) =~= seq![s]);
    } else {
        let front = s.drop_last();
        if front.contains(c) {
            let k = choose|k: int| 0 <= k < front.len() && front[k] == c;
            assert(s[k] == c);
        }
        if s.last() == c {
            assert(s[s.len() - 1] == c);
        }
        lemma_no_split(front, c);
        assert(front.push(s.last()) =~= s);
        assert(split(s, c) =~= seq![s]);
    }
}

/// Two texts with a character between them that neither holds are split at it.
pub proof fn law_split(a: Seq<char>, c: char, b: Seq<char>)
    requires
        !a.contains(c),
        !b.contains(c),
    ensures
        split(a, c) == seq![a],
        split(a + seq![c] + b, c) == seq![a, b],
    decreases b.len(),
{
    let s = a + seq![c] + b;
    lemma_no_split(a, c);
    if b.len() == 0 {
        assert(s.drop_last() =~= a);
        assert(b =~= Seq::empty());
        assert(split(s, c) =~= seq![a, b]);
    } else {
        let front = b.drop_last();
        if front.contains(c) {
            let k = choose|k: int| 0 <= k < front.len() && front[k] == c;
            assert(b[k] == c);
        }
        if b.last() == c {
            assert(b[b.len() - 1] == c);
        }
        law_split(a, c, front);
        assert(s.drop_last() =~= a + seq![c] + front);
        assert(s.last() == b.last());
        assert(front.push(b.last()) =~= b);
        assert(split(s, c) =~= seq![a, b]);
    }
}

/// Texts before the same text, or behind it, are the same where the whole is.
pub proof fn lemma_same_front(a: Seq<char>, b: Seq<char>, tail: Seq<char>)
    requires
        a + tail == b + tail,
    ensures
        a == b,
{
    assert((a + tail).len() == (b + tail).len());
    assert((a + tail).take(a.len() as int) =~= a);
    assert((b + tail).take(b.len() as int) =~= b);
}

pub proof fn lemma_same_back(head: Seq<char>, a: Seq<char>, b: Seq<char>)
    requires
        head + a == head + b,
    ensures
        a == b,
{
    assert((head + a).skip(head.len() as int) =~= a);
    assert((head + b).skip(head.len() as int) =~= b);
}

/// Two texts with `sep` between them, where both say something; else the one that does.
pub open spec fn glued(a: Seq<char>, sep: Seq<char>, b: Seq<char>) -> Seq<char> {
    if a.len() == 0 {
        b
    } else if b.len() == 0 {
        a
    } else {
        a + sep + b
    }
}

/// Joining goes part by part: what two lists are joined into stands one behind the other, with the
/// separator between them where neither list is empty. One text is joined into itself.
pub proof fn law_join(a: Seq<Seq<char>>, b: Seq<Seq<char>>, sep: Seq<char>, s: Seq<char>)
    ensures
        join(Seq::empty(), sep).len() == 0,
        join(seq![s], sep) == s,
        join(a + b, sep) == (if a.len() == 0 {
            join(b, sep)
        } else if b.len() == 0 {
            join(a, sep)
        } else {
            join(a, sep) + sep + join(b, sep)
        }),
    decreases b.len(),
{
    if a.len() == 0 {
        assert(a + b =~= b);
    } else if b.len() == 0 {
        assert(a + b =~= a);
    } else {
        law_join(a, b.drop_last(), sep, s);
        assert((a + b).drop_last() =~= a + b.drop_last());
        assert((a + b).last() == b.last());
        if b.len() > 1 {
            assert(join(a + b, sep) =~= join(a, sep) + sep + join(b, sep));
        } else {
            assert(a + b.drop_last() =~= a);
        }
    }
}

/// Whether every text of a list says something.
pub open spec fn none_empty(parts: Seq<Seq<char>>) -> bool {
    forall|i: int| 0 <= i < parts.len() ==> (#[trigger] parts[i]).len() > 0
}

pub proof fn lemma_join_glued(a: Seq<Seq<char>>, b: Seq<Seq<char>>, sep: Seq<char>)
    requires
        none_empty(a),
        none_empty(b),
    ensures
        join(a + b, sep) == glued(join(a, sep), sep, join(b, sep)),
        none_empty(a + b),
        a.len() > 0 ==> join(a, sep).len() > 0,
        b.len() > 0 ==> join(b, sep).len() > 0,
{
    law_join(a, b, sep, Seq::empty());
    lemma_join_says(a, sep);
    lemma_join_says(b, sep);
    assert forall|i: int| 0 <= i < (a + b).len() implies (#[trigger] (a + b)[i]).len() > 0 by {
        if i < a.len() {
            assert((a + b)[i] == a[i]);
        } else {
            assert((a + b)[i] == b[i - a.len()]);
        }
    }
}

proof fn lemma_join_says(a: Seq<Seq<char>>, sep: Seq<char>)
    requires
        none_empty(a),
    ensures
        a.len() > 0 ==> join(a, sep).len() > 0,
{
    if a.len() > 0 {
        assert(a[a.len() - 1].len() > 0);
    }
}

/// Trimming takes white space off both ends and nothing else, and leaves none there.
pub proof fn law_trim(s: Seq<char>) -> (ends: (Seq<char>, Seq<char>))
    ensures
        all_white(ends.0),
        all_white(ends.1),
        s == ends.0 + trim(s) + ends.1,
        trim(s).len() > 0 ==> !is_white(trim(s)[0]) && !is_white(trim(s).last()),
{
    let t = trim_start(s);
    lemma_trim_start_cut(s);
    lemma_trim_end_cut(t);
    lemma_trim_trimmed(s);
    let head = s.take(s.len() - t.len());
    let tail = t.skip(trim(s).len() as int);
    assert(s =~= head + trim(s) + tail);
    (head, tail)
}

proof fn lemma_trim_start_cut(s: Seq<char>)
    ensures
        trim_start(s).len() <= s.len(),
        s.skip(s.len() - trim_start(s).len()) == trim_start(s),
        all_white(s.take(s.len() - trim_start(s).len())),
    decreases s.len(),
{
    if s.len() > 0 && is_white(s[0]) {
        let rest = s.drop_first();
        lemma_trim_start_cut(rest);
        let n = rest.len() - trim_start(rest).len();
        assert(s.skip(n + 1) =~= rest.skip(n));
        assert forall|i: int| 0 <= i < n + 1 implies is_white(#[trigger] s.take(n + 1)[i]) by {
            if i > 0 {
                assert(s.take(n + 1)[i] == rest.take(n)[i - 1]);
            }
        }
    } else {
        assert(s.skip(0) =~= s);
    }
}

proof fn lemma_trim_end_cut(s: Seq<char>)
    ensures
        trim_end(s).len() <= s.len(),
        s.take(trim_end(s).len() as int) == trim_end(s),
        all_white(s.skip(trim_end(s).len() as int)),
    decreases s.len(),
{
    if s.len() > 0 && is_white(s.last()) {
        let rest = s.drop_last();
        lemma_trim_end_cut(rest);
        let n = trim_end(rest).len() as int;
        assert(s.take(n) =~= rest.take(n));
        assert forall|i: int| 0 <= i < s.len() - n implies is_white(#[trigger] s.skip(n)[i]) by {
            if i < rest.len() - n {
                assert(s.skip(n)[i] == rest.skip(n)[i]);
            }
        }
    } else {
        assert(s.take(s.len() as int) =~= s);
    }
}

/// Joining the pieces of a text with the character that they were split at gives the text back,
/// and no piece holds that character.
pub proof fn law_split_join(s: Seq<char>, c: char)
    ensures
        split(s, c).len() > 0,
        join(split(s, c), seq![c]) == s,
        forall|i: int| 0 <= i < split(s, c).len() ==> !(#[trigger] split(s, c)[i]).contains(c),
    decreases s.len(),
{
    if s.len() > 0 {
        let front = split(s.drop_last(), c);
        let after = split(s, c);
        law_split_join(s.drop_last(), c);
        assert(s =~= s.drop_last().push(s.last()));
        if s.last() == c {
            assert(after.drop_last() =~= front);
            assert(join(after, seq![c]) =~= s);
        } else {
            assert(after.drop_last() =~= front.drop_last());
            assert(front =~= front.drop_last().push(front.last()));
            let piece = front.last().push(s.last());
            if front.len() == 1 {
                assert(join(after, seq![c]) == piece);
                assert(join(front, seq![c]) == front.last());
            } else {
                let head = join(front.drop_last(), seq![c]);
                assert(join(front, seq![c]) == head + seq![c] + front.last());
                assert(join(after, seq![c]) == head + seq![c] + piece);
                assert(head + seq![c] + piece =~= (head + seq![c] + front.last()).push(s.last()));
            }
            assert forall|i: int| 0 <= i < after.len() implies !(#[trigger] after[i]).contains(
                c,
            ) by {
                if i < front.len() - 1 {
                    assert(after[i] == front[i]);
                } else {
                    assert(!front[front.len() - 1].contains(c));
                    if piece.contains(c) {
                        let k = choose|k: int| 0 <= k < piece.len() && piece[k] == c;
                        if k < front.last().len() {
                            assert(front.last()[k] == c);
                        }
                    }
                }
            }
        }
    }
}

pub fn join_strs(parts: &Vec<String>, sep: &str) -> (r: String)
    ensures
        r@ == join(views(parts@), sep@),
{
    let mut out = String::new();
    let ghost all = views(parts@);
    for i in 0..parts.len()
        invariant
            all == views(parts@),
            out@ == join(all.take(i as int), sep@),
    {
        assert(all.take(i + 1).drop_last() =~= all.take(i as int));
        assert(all.take(i + 1).last() == parts@[i as int]@);
        if i > 0 {
            out.append(sep);
        } else {
            assert(all.take(1)[0] == parts@[0]@);
        }
        out.append(parts[i].as_str());
        assert(out@ =~= join(all.take(i + 1), sep@));
    }
    assert(all.take(all.len() as int) =~= all);
    out
}

/// The first `n` characters, or all where there are fewer.
pub open spec fn first_chars(s: Seq<char>, n: int) -> Seq<char> {
    if s.len() <= n {
        s
    } else {
        s.take(n)
    }
}

pub fn first_chars_str<'a>(s: &'a str, n: usize) -> (r: &'a str)
    ensures
        r@ == first_chars(s@, n as int),
{
    if s.unicode_len() <= n {
        s
    } else {
        assert(s@.take(n as int) =~= s@.subrange(0, n as int));
        s.substring_char(0, n)
    }
}

/// The number of bytes of a text in UTF-8.
pub open spec fn byte_len(s: Seq<char>) -> nat {
    encode_utf8(s).len()
}

pub fn byte_len_str(s: &str) -> (r: usize)
    ensures
        r == byte_len(s@),
{
    s.as_bytes().len()
}

/// The longest beginning of a text, from its first `i` characters on, that has at most `max`
/// bytes.
pub open spec fn beginning(s: Seq<char>, max: int, i: int) -> Seq<char>
    decreases s.len() - i,
{
    if i < s.len() && byte_len(s.take(i + 1)) <= max {
        beginning(s, max, i + 1)
    } else {
        s.take(i)
    }
}

/// The beginning of a text that has at most `max` bytes.
pub fn cut_off(s: &str, max: usize) -> (r: String)
    ensures
        r@ == beginning(s@, max as int, 0),
{
    let n: usize = s.unicode_len();
    let mut i: usize = 0;
    while i < n && byte_len_str(s.substring_char(0, i + 1)) <= max
        invariant
            n == s@.len(),
            i <= n,
            beginning(s@, max as int, 0) == beginning(s@, max as int, i as int),
        decreases n - i,
    {
        assert(s@.take(i + 1) =~= s@.subrange(0, i + 1));
        i = i + 1;
    }
    proof {
        if i < n {
            assert(s@.take(i + 1) =~= s@.subrange(0, i + 1));
        }
        assert(s@.take(i as int) =~= s@.subrange(0, i as int));
    }
    s.substring_char(0, i).to_string()
}

/// The first place at or after `i` where the character `c` stands in `s`.
pub open spec fn place_from(s: Seq<char>, c: char, i: int) -> Option<int>
    decreases s.len() - i,
{
    if i >= s.len() {
        None
    } else if s[i] == c {
        Some(i)
    } else {
        place_from(s, c, i + 1)
    }
}

/// The first place where the character `c` stands in `s`.
pub open spec fn place_of(s: Seq<char>, c: char) -> Option<int> {
    place_from(s, c, 0)
}

pub proof fn lemma_place_from(s: Seq<char>, c: char, i: int)
    requires
        0 <= i,
    ensures
        match place_from(s, c, i) {
            Some(k) => i <= k < s.len() && s[k] == c && forall|j: int| i <= j < k ==> s[j] != c,
            None => forall|j: int| i <= j < s.len() ==> s[j] != c,
        },
    decreases s.len() - i,
{
    if i < s.len() && s[i] != c {
        lemma_place_from(s, c, i + 1);
    }
}

/// The first place, counted in characters, where `c` stands in `s`.
pub fn place_of_char(s: &str, c: char) -> (r: Option<usize>)
    ensures
        match r {
            Some(i) => i < s@.len() && place_of(s@, c) == Some(i as int),
            None => place_of(s@, c) is None,
        },
{
    let chars = chars_of(s);
    for i in 0..chars.len()
        invariant
            chars@ == s@,
            place_of(s@, c) == place_from(s@, c, i as int),
    {
        if chars[i] == c {
            return Some(i);
        }
    }
    None
}

/// What stands before the first `c` and after it.
pub open spec fn split_once(s: Seq<char>, c: char) -> Option<(Seq<char>, Seq<char>)> {
    match place_of(s, c) {
        Some(i) => Some((s.take(i), s.skip(i + 1))),
        None => None,
    }
}

pub fn split_once_str<'a>(s: &'a str, c: char) -> (r: Option<(&'a str, &'a str)>)
    ensures
        match r {
            Some(parts) => split_once(s@, c) == Some((parts.0@, parts.1@)),
            None => split_once(s@, c) is None,
        },
{
    match place_of_char(s, c) {
        Some(i) => {
            let n: usize = s.unicode_len();
            let before = s.substring_char(0, i);
            let after = s.substring_char(i + 1, n);
            assert(before@ =~= s@.take(i as int));
            assert(after@ =~= s@.skip(i + 1));
            Some((before, after))
        },
        None => None,
    }
}

/// The texts of a list of string slices.
pub open spec fn strs(list: Seq<&str>) -> Seq<Seq<char>> {
    list.map_values(|s: &str| s@)
}

// ---------------------------------------------------------------------------
// ASCII case
// ---------------------------------------------------------------------------

pub open spec fn lower_ascii(s: Seq<char>) -> Seq<char> {
    s.map_values(|c: char| lower_char(c))
}

/// The ASCII upper-case form of a character; other characters stay as they are.
pub open spec fn upper_char(c: char) -> char {
    if 'a' <= c <= 'z' {
        ((c as u8) - 32) as u8 as char
    } else {
        c
    }
}

pub open spec fn upper_ascii(s: Seq<char>) -> Seq<char> {
    s.map_values(|c: char| upper_char(c))
}

proof fn lemma_trim_start_upper(s: Seq<char>)
    ensures
        trim_start(upper_ascii(s)) == upper_ascii(trim_start(s)),
    decreases s.len(),
{
    if s.len() > 0 {
        assert(upper_ascii(s)[0] == upper_char(s[0]));
        assert(upper_ascii(s).drop_first() =~= upper_ascii(s.drop_first()));
        lemma_trim_start_upper(s.drop_first());
    }
}

proof fn lemma_trim_end_upper(s: Seq<char>)
    ensures
        trim_end(upper_ascii(s)) == upper_ascii(trim_end(s)),
    decreases s.len(),
{
    if s.len() > 0 {
        assert(upper_ascii(s).last() == upper_char(s.last()));
        assert(upper_ascii(s).drop_last() =~= upper_ascii(s.drop_last()));
        lemma_trim_end_upper(s.drop_last());
    }
}

/// Upper case makes no difference to the lower-case form of ASCII text, nor to where it is
/// trimmed.
pub proof fn lemma_upper_ascii(s: Seq<char>)
    ensures
        trim(upper_ascii(s)) == upper_ascii(trim(s)),
        lower_ascii(upper_ascii(s)) == lower_ascii(s),
        all_ascii(s) ==> lower_case(upper_ascii(s)) == lower_case(s),
{
    lemma_trim_start_upper(s);
    lemma_trim_end_upper(trim_start(s));
    assert forall|i: int| 0 <= i < s.len() implies lower_ascii(upper_ascii(s))[i] == lower_ascii(
        s,
    )[i] by {
        assert(upper_ascii(s)[i] == upper_char(s[i]));
    }
    assert(lower_ascii(upper_ascii(s)) =~= lower_ascii(s));
    if all_ascii(s) {
        assert forall|i: int| 0 <= i < s.len() implies (#[trigger] upper_ascii(s)[i]) as u32
            <= 127 by {
            assert(upper_ascii(s)[i] == upper_char(s[i]));
            assert(s[i] as u32 <= 127);
        }
    }
}

pub fn lower_ascii_str(s: &str) -> (r: String)
    ensures
        r@ == lower_ascii(s@),
{
    let chars = chars_of(s);
    let mut out = String::new();
    for i in 0..chars.len()
        invariant
            chars@ == s@,
            out@ == lower_ascii(s@).take(i as int),
    {
        out.push(lower_char_exec(chars[i]));
        assert(lower_ascii(s@).take(i + 1) =~= lower_ascii(s@).take(i as int).push(
            lower_ascii(s@)[i as int],
        ));
    }
    assert(lower_ascii(s@).take(s@.len() as int) =~= lower_ascii(s@));
    out
}

pub fn same_ignoring_case(a: &str, b: &str) -> (r: bool)
    ensures
        r == (lower_ascii(a@) == lower_ascii(b@)),
{
    same(lower_ascii_str(a).as_str(), lower_ascii_str(b).as_str())
}

// ---------------------------------------------------------------------------
// Numbers
// ---------------------------------------------------------------------------

pub open spec fn is_digit(c: char) -> bool {
    '0' <= c <= '9'
}

pub open spec fn digit_value(c: char) -> nat {
    (c as u32 - '0' as u32) as nat
}

pub open spec fn digit_char(n: nat) -> char
    recommends
        n < 10,
{
    ('0' as u32 + n) as char
}

/// The decimal digits of a number, without leading zeros.
pub open spec fn decimal(n: nat) -> Seq<char>
    decreases n,
{
    if n < 10 {
        seq![digit_char(n)]
    } else {
        decimal(n / 10).push(digit_char(n % 10))
    }
}

pub open spec fn decimal_int(n: int) -> Seq<char> {
    if n < 0 {
        seq!['-'] + decimal((-n) as nat)
    } else {
        decimal(n as nat)
    }
}

fn digit_char_exec(n: u64) -> (r: char)
    requires
        n < 10,
    ensures
        r == digit_char(n as nat),
{
    let d: u8 = n as u8;
    (48 + d) as char
}

pub fn decimal_u64(n: u64) -> (r: String)
    ensures
        r@ == decimal(n as nat),
    decreases n,
{
    if n < 10 {
        let mut out = String::new();
        out.push(digit_char_exec(n));
        assert(out@ =~= decimal(n as nat));
        out
    } else {
        let mut out = decimal_u64(n / 10);
        out.push(digit_char_exec(n % 10));
        out
    }
}

pub fn decimal_i64(n: i64) -> (r: String)
    ensures
        r@ == decimal_int(n as int),
{
    if n < 0 {
        let mut out = String::new();
        out.push('-');
        let digits = decimal_u64((-(n as i128)) as u64);
        out.append(digits.as_str());
        assert(out@ =~= decimal_int(n as int));
        out
    } else {
        decimal_u64(n as u64)
    }
}

pub open spec fn all_digits(s: Seq<char>) -> bool {
    forall|i: int| 0 <= i < s.len() ==> is_digit(s[i])
}

pub open spec fn digits_value(s: Seq<char>) -> nat
    decreases s.len(),
{
    if s.len() == 0 {
        0
    } else {
        digits_value(s.drop_last()) * 10 + digit_value(s.last())
    }
}

/// The number that a text of decimal digits, perhaps after a plus sign, stands for.
pub open spec fn unsigned_value(s: Seq<char>) -> Option<nat> {
    let digits = if s.len() > 0 && s[0] == '+' {
        s.drop_first()
    } else {
        s
    };
    if digits.len() > 0 && all_digits(digits) {
        Some(digits_value(digits))
    } else {
        None
    }
}

/// The number that a text stands for, when it is one and at most `max`.
pub open spec fn bounded_value(s: Seq<char>, max: int) -> Option<nat> {
    match unsigned_value(s) {
        Some(n) => if n <= max {
            Some(n)
        } else {
            None
        },
        None => None,
    }
}

/// A number in print is made of digits, with none too many before it, and is read back as the number.
pub proof fn law_decimal(n: nat)
    ensures
        decimal(n).len() > 0,
        all_digits(decimal(n)),
        n > 0 ==> decimal(n)[0] != '0',
        unsigned_value(decimal(n)) == Some(n),
        trim(decimal(n)) == decimal(n),
    decreases n,
{
    lemma_decimal(n);
    assert(is_digit(decimal(n)[0]));
    assert(is_digit(decimal(n)[decimal(n).len() - 1]));
}

proof fn lemma_decimal(n: nat)
    ensures
        decimal(n).len() > 0,
        all_digits(decimal(n)),
        n > 0 ==> decimal(n)[0] != '0',
        digits_value(decimal(n)) == n,
    decreases n,
{
    reveal_with_fuel(digits_value, 2);
    if n < 10 {
        assert(decimal(n).drop_last() =~= Seq::empty());
    } else {
        lemma_decimal(n / 10);
        assert(decimal(n).drop_last() =~= decimal(n / 10));
        assert forall|i: int| 0 <= i < decimal(n).len() implies is_digit(decimal(n)[i]) by {
            if i < decimal(n / 10).len() {
                assert(decimal(n)[i] == decimal(n / 10)[i]);
            }
        }
    }
}

proof fn lemma_digits_value_grows(s: Seq<char>, n: int)
    requires
        0 <= n <= s.len(),
    ensures
        digits_value(s.take(n)) <= digits_value(s),
    decreases s.len() - n,
{
    if n == s.len() {
        assert(s.take(n) =~= s);
    } else {
        lemma_digits_value_grows(s, n + 1);
        assert(s.take(n + 1).drop_last() =~= s.take(n));
    }
}

pub fn parse_u64(s: &str) -> (r: Option<u64>)
    ensures
        r matches Some(n) ==> bounded_value(s@, u64::MAX as int) == Some(n as nat),
        r is None ==> bounded_value(s@, u64::MAX as int) is None,
{
    let chars = chars_of(s);
    let start: usize = if chars.len() > 0 && chars[0] == '+' {
        1
    } else {
        0
    };
    let ghost digits = s@.skip(start as int);
    assert(start == 0 ==> digits =~= s@);
    assert(start == 1 ==> digits =~= s@.drop_first());
    if start == chars.len() {
        return None;
    }
    for i in start..chars.len()
        invariant
            chars@ == s@,
            start <= 1,
            digits == s@.skip(start as int),
            start == 0 ==> digits == s@,
            start == 1 ==> digits == s@.drop_first(),
            start == (if s@.len() > 0 && s@[0] == '+' { 1int } else { 0int }),
            forall|j: int| 0 <= j < i - start ==> is_digit(digits[j]),
    {
        assert(digits[i - start] == s@[i as int]);
        let c = chars[i];
        if !('0' <= c && c <= '9') {
            assert(!is_digit(digits[i - start]));
            return None;
        }
    }
    assert(all_digits(digits));
    let mut total: u64 = 0;
    assert(digits.take(0) =~= Seq::empty());
    for i in start..chars.len()
        invariant
            chars@ == s@,
            start <= 1,
            digits == s@.skip(start as int),
            all_digits(digits),
            start == 0 ==> digits == s@,
            start == 1 ==> digits == s@.drop_first(),
            start == (if s@.len() > 0 && s@[0] == '+' { 1int } else { 0int }),
            digits.len() > 0,
            total == digits_value(digits.take(i - start)),
    {
        assert(digits[i - start] == s@[i as int]);
        let d: u64 = (chars[i] as u32 - 48) as u64;
        proof {
            let k = i - start;
            assert(digits.take(k + 1).drop_last() =~= digits.take(k));
            assert(digits_value(digits.take(k + 1)) == total * 10 + d);
            lemma_digits_value_grows(digits, k + 1);
        }
        if total > (u64::MAX - d) / 10 {
            return None;
        }
        total = total * 10 + d;
    }
    assert(digits.take(digits.len() as int) =~= digits);
    Some(total)
}

pub fn parse_u32(s: &str) -> (r: Option<u32>)
    ensures
        r matches Some(n) ==> bounded_value(s@, u32::MAX as int) == Some(n as nat),
        r is None ==> bounded_value(s@, u32::MAX as int) is None,
{
    match parse_u64(s) {
        Some(n) => if n <= u32::MAX as u64 {
            Some(n as u32)
        } else {
            None
        },
        None => None,
    }
}

pub fn parse_usize(s: &str) -> (r: Option<usize>)
    ensures
        r matches Some(n) ==> bounded_value(s@, usize::MAX as int) == Some(n as nat),
        r is None ==> bounded_value(s@, usize::MAX as int) is None,
{
    match parse_u64(s) {
        Some(n) => if n <= usize::MAX as u64 {
            Some(n as usize)
        } else {
            None
        },
        None => None,
    }
}

// ---------------------------------------------------------------------------
// Links
// ---------------------------------------------------------------------------

pub open spec fn is_link(s: Seq<char>) -> bool {
    starts_with(s, "http://"@) || starts_with(s, "https://"@)
}

pub fn is_link_text(s: &str) -> (r: bool)
    ensures
        r == is_link(s@),
{
    starts_with_str(s, "http://") || starts_with_str(s, "https://")
}

// ---------------------------------------------------------------------------
// Laws of the parts of a text
// ---------------------------------------------------------------------------

/// A short text is shown whole, and of a longer one the first characters, as many as asked for.
pub proof fn law_first_chars(s: Seq<char>, n: int)
    requires
        0 <= n,
    ensures
        first_chars(s, n).is_prefix_of(s),
        first_chars(s, n).len() == (if s.len() <= n {
            s.len() as int
        } else {
            n
        }),
{
}

/// A text is parted at the first of a character; the character itself belongs to neither part.
pub proof fn law_split_once(a: Seq<char>, c: char, b: Seq<char>)
    requires
        !a.contains(c),
    ensures
        split_once(a + seq![c] + b, c) == Some((a, b)),
        split_once(a, c) is None,
        place_of(a + seq![c] + b, c) == Some(a.len() as int),
        place_of(a, c) is None,
{
    let s = a + seq![c] + b;
    lemma_place_from(s, c, 0);
    lemma_place_from(a, c, 0);
    assert(s[a.len() as int] == c);
    match place_of(s, c) {
        Some(k) => {
            if k < a.len() {
                assert(a[k] == c);
                assert(a.contains(c));
            }
        },
        None => {},
    }
    if let Some(k) = place_of(a, c) {
        assert(a[k] == c);
    }
    assert(s.take(a.len() as int) =~= a);
    assert(s.skip(a.len() as int + 1) =~= b);
}

/// Letters become small ones one by one, and nothing else changes.
pub proof fn law_small_letters(s: Seq<char>, i: int)
    requires
        0 <= i < s.len(),
    ensures
        lower_ascii(s).len() == s.len(),
        'A' <= s[i] <= 'Z' ==> lower_ascii(s)[i] as int == s[i] as int + 32,
        !('A' <= s[i] <= 'Z') ==> lower_ascii(s)[i] == s[i],
        lower_ascii(lower_ascii(s)) == lower_ascii(s),
{
    assert(lower_ascii(lower_ascii(s)) =~= lower_ascii(s));
}

/// A text is read line by line: a line without a line break in it is one, and stands before the
/// lines behind its break. A carriage return before the break belongs to it.
pub proof fn law_lines(a: Seq<char>, b: Seq<char>)
    requires
        !a.contains('\n'),
        !b.contains('\n'),
        b.len() > 0,
        a.len() == 0 || a.last() != '\r',
    ensures
        lines(b) == seq![b],
        lines(a + seq!['\n'] + b) == seq![a, b],
        lines(a + seq!['\r', '\n'] + b) == seq![a, b],
{
    law_split(a, '\n', b);
    law_split(b, '\n', a);
    let back = a.push('\r');
    if back.contains('\n') {
        let k = choose|k: int| 0 <= k < back.len() && back[k] == '\n';
        assert(a[k] == '\n');
    }
    law_split(back, '\n', b);
    assert(back + seq!['\n'] + b =~= a + seq!['\r', '\n'] + b);
    assert(back.drop_last() =~= a);
    assert(lines(b) =~= seq![b]);
    assert(lines(a + seq!['\n'] + b) =~= seq![a, b]);
    assert(lines(back + seq!['\n'] + b) =~= seq![a, b]);
}

/// White space is cut off at both ends and nowhere else, and so are the characters that are named.
pub proof fn law_cut_off(a: Seq<char>, s: Seq<char>, b: Seq<char>, c: char)
    requires
        s.len() > 0,
        forall|i: int| 0 <= i < a.len() ==> (#[trigger] a[i]) == c,
        forall|i: int| 0 <= i < b.len() ==> (#[trigger] b[i]) == c,
        s[0] != c,
        s.last() != c,
    ensures
        trim_start_of(a + s, c) == s,
        trim_end_of(s + b, c) == s,
    decreases a.len() + b.len(),
{
    if a.len() > 0 {
        assert((a + s)[0] == a[0]);
        assert((a + s).drop_first() =~= a.drop_first() + s);
        law_cut_off(a.drop_first(), s, b, c);
    } else {
        assert(a + s =~= s);
        if b.len() > 0 {
            assert((s + b).last() == b[b.len() - 1]);
            assert((s + b).drop_last() =~= s + b.drop_last());
            law_cut_off(a, s, b.drop_last(), c);
        } else {
            assert(s + b =~= s);
        }
    }
}

/// A text is cut off where one character more would be too many bytes, and not before.
pub proof fn law_beginning(s: Seq<char>, max: int)
    requires
        0 <= max,
    ensures
        beginning(s, max, 0).is_prefix_of(s),
        byte_len(beginning(s, max, 0)) <= max,
        beginning(s, max, 0).len() < s.len() ==> byte_len(
            s.take(beginning(s, max, 0).len() as int + 1),
        ) > max,
{
    assert(s.take(0) =~= Seq::empty());
    assert(byte_len(Seq::empty()) == 0);
    lemma_beginning(s, max, 0);
}

proof fn lemma_beginning(s: Seq<char>, max: int, i: int)
    requires
        0 <= i <= s.len(),
        byte_len(s.take(i)) <= max,
    ensures
        beginning(s, max, i).is_prefix_of(s),
        byte_len(beginning(s, max, i)) <= max,
        beginning(s, max, i).len() < s.len() ==> byte_len(
            s.take(beginning(s, max, i).len() as int + 1),
        ) > max,
    decreases s.len() - i,
{
    if i < s.len() && byte_len(s.take(i + 1)) <= max {
        lemma_beginning(s, max, i + 1);
    }
}

} // verus!
