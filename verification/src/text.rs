//! Text, character by character: numerals, dictionary order, escaped ampersands, and
//! the extension of the file that an address names.

use vstd::prelude::*;
use vstd::string::*;

verus! {

/// The character that writes the decimal digit `d`.
pub open spec fn digit_char(d: nat) -> char {
    if d == 0 {
        '0'
    } else if d == 1 {
        '1'
    } else if d == 2 {
        '2'
    } else if d == 3 {
        '3'
    } else if d == 4 {
        '4'
    } else if d == 5 {
        '5'
    } else if d == 6 {
        '6'
    } else if d == 7 {
        '7'
    } else if d == 8 {
        '8'
    } else {
        '9'
    }
}

/// The decimal numeral of `n`, most significant digit first, without leading zeros.
pub open spec fn decimal(n: nat) -> Seq<char>
    decreases n,
{
    if n < 10 {
        seq![digit_char(n)]
    } else {
        decimal(n / 10).push(digit_char(n % 10))
    }
}

/// `suffix` ends `text`.
pub open spec fn is_suffix(suffix: Seq<char>, text: Seq<char>) -> bool {
    suffix.len() <= text.len() && text.skip(text.len() - suffix.len()) == suffix
}

/// The characters of `s`, one by one.
pub fn to_chars(s: &str) -> (chars: Vec<char>)
    ensures
        chars@ == s@,
{
    let mut chars: Vec<char> = Vec::new();
    for c in it: s.chars()
        invariant
            chars@ == it.seq().take(it.index() as int),
            it.seq() == s@,
    {
        chars.push(c);
    }
    chars
}

/// The text that writes the decimal digit `d`.
fn digit_str(d: usize) -> (s: &'static str)
    requires
        d < 10,
    ensures
        s@ == seq![digit_char(d as nat)],
{
    proof {
        reveal_strlit("0");
        reveal_strlit("1");
        reveal_strlit("2");
        reveal_strlit("3");
        reveal_strlit("4");
        reveal_strlit("5");
        reveal_strlit("6");
        reveal_strlit("7");
        reveal_strlit("8");
        reveal_strlit("9");
    }
    let s = if d == 0 {
        "0"
    } else if d == 1 {
        "1"
    } else if d == 2 {
        "2"
    } else if d == 3 {
        "3"
    } else if d == 4 {
        "4"
    } else if d == 5 {
        "5"
    } else if d == 6 {
        "6"
    } else if d == 7 {
        "7"
    } else if d == 8 {
        "8"
    } else {
        "9"
    };
    assert(s@ =~= seq![digit_char(d as nat)]);
    s
}

/// Writes `n` in decimal.
pub fn decimal_string(n: usize) -> (s: String)
    ensures
        s@ == decimal(n as nat),
    decreases n,
{
    if n < 10 {
        String::from_str(digit_str(n))
    } else {
        let mut s = decimal_string(n / 10);
        s.append(digit_str(n % 10));
        assert(s@ =~= decimal(n as nat));
        s
    }
}

/// Whether `text` ends with `suffix`.
pub fn ends_with(text: &Vec<char>, suffix: &str) -> (found: bool)
    ensures
        found == is_suffix(suffix@, text@),
{
    let tail = to_chars(suffix);
    if tail.len() > text.len() {
        return false;
    }
    let offset: usize = text.len() - tail.len();
    let mut i: usize = 0;
    while i < tail.len()
        invariant
            i <= tail.len(),
            offset + tail.len() == text.len(),
            tail@ == suffix@,
            forall|j: int| 0 <= j < i ==> text@[offset + j] == tail@[j],
        decreases tail.len() - i,
    {
        if text[offset + i] != tail[i] {
            assert(text@.skip(text@.len() - suffix@.len())[i as int] != suffix@[i as int]);
            return false;
        }
        i += 1;
    }
    assert(text@.skip(text@.len() - suffix@.len()) =~= suffix@);
    true
}

/// `a` comes before `b` in the order of a dictionary, character by character, each
/// character by its code point.
pub open spec fn lex_less(a: Seq<char>, b: Seq<char>) -> bool
    decreases a.len(),
{
    if b.len() == 0 {
        false
    } else if a.len() == 0 {
        true
    } else if a[0] != b[0] {
        a[0] < b[0]
    } else {
        lex_less(a.skip(1), b.skip(1))
    }
}

/// Two texts that share their first `k` characters compare as what follows them.
pub proof fn lemma_lex_less_skip(a: Seq<char>, b: Seq<char>, k: int)
    requires
        0 <= k <= a.len(),
        k <= b.len(),
        a.take(k) == b.take(k),
    ensures
        lex_less(a, b) == lex_less(a.skip(k), b.skip(k)),
    decreases k,
{
    if k == 0 {
        assert(a.skip(0) =~= a);
        assert(b.skip(0) =~= b);
    } else {
        assert(a[0] == a.take(k)[0]);
        assert(b[0] == b.take(k)[0]);
        assert(a.skip(1).take(k - 1) =~= b.skip(1).take(k - 1)) by {
            assert forall|i: int| 0 <= i < k - 1 implies #[trigger] a.skip(1).take(k - 1)[i]
                == b.skip(1).take(k - 1)[i] by {
                assert(a[i + 1] == a.take(k)[i + 1]);
                assert(b[i + 1] == b.take(k)[i + 1]);
            }
        }
        lemma_lex_less_skip(a.skip(1), b.skip(1), k - 1);
        assert(a.skip(1).skip(k - 1) =~= a.skip(k));
        assert(b.skip(1).skip(k - 1) =~= b.skip(k));
    }
}

/// Of two different texts one comes before the other.
pub proof fn lemma_lex_less_total(a: Seq<char>, b: Seq<char>)
    ensures
        lex_less(a, b) || lex_less(b, a) || a == b,
        !(lex_less(a, b) && lex_less(b, a)),
    decreases a.len(),
{
    if a.len() == 0 || b.len() == 0 {
        if a.len() == 0 && b.len() == 0 {
            assert(a =~= b);
        }
    } else if a[0] != b[0] {
    } else {
        lemma_lex_less_total(a.skip(1), b.skip(1));
        if a.skip(1) == b.skip(1) {
            assert(a =~= seq![a[0]] + a.skip(1));
            assert(b =~= seq![b[0]] + b.skip(1));
        }
    }
}

/// The order is transitive.
pub proof fn lemma_lex_less_transitive(a: Seq<char>, b: Seq<char>, c: Seq<char>)
    requires
        lex_less(a, b),
        lex_less(b, c),
    ensures
        lex_less(a, c),
    decreases a.len(),
{
    if a.len() > 0 && a[0] == b[0] && b[0] == c[0] {
        lemma_lex_less_transitive(a.skip(1), b.skip(1), c.skip(1));
    }
}

/// Whether `a` comes before `b` in dictionary order.
pub fn str_less(a: &str, b: &str) -> (less: bool)
    ensures
        less == lex_less(a@, b@),
{
    let x = to_chars(a);
    let y = to_chars(b);
    let mut i: usize = 0;
    while i < x.len() && i < y.len() && x[i] == y[i]
        invariant
            i <= x.len(),
            i <= y.len(),
            x@.take(i as int) == y@.take(i as int),
        decreases x.len() - i,
    {
        assert(x@.take(i + 1) =~= x@.take(i as int).push(x@[i as int]));
        assert(y@.take(i + 1) =~= y@.take(i as int).push(y@[i as int]));
        i += 1;
    }
    proof {
        lemma_lex_less_skip(x@, y@, i as int);
        if i < x.len() && i < y.len() {
            assert(x@.skip(i as int)[0] == x@[i as int]);
            assert(y@.skip(i as int)[0] == y@[i as int]);
        }
    }
    if i == y.len() {
        false
    } else if i == x.len() {
        true
    } else {
        x[i] < y[i]
    }
}

/// Whether `a` and `b` are the same text.
pub fn str_equal(a: &str, b: &str) -> (same: bool)
    ensures
        same == (a@ == b@),
{
    let x = to_chars(a);
    let y = to_chars(b);
    if x.len() != y.len() {
        return false;
    }
    let mut i: usize = 0;
    while i < x.len()
        invariant
            i <= x.len(),
            x.len() == y.len(),
            x@ == a@,
            y@ == b@,
            forall|j: int| 0 <= j < i ==> x@[j] == y@[j],
        decreases x.len() - i,
    {
        if x[i] != y[i] {
            assert(x@[i as int] != y@[i as int]);
            return false;
        }
        i += 1;
    }
    assert(x@ =~= y@);
    true
}

/// `prefix` starts `text`.
pub open spec fn is_prefix(prefix: Seq<char>, text: Seq<char>) -> bool {
    prefix.len() <= text.len() && text.take(prefix.len() as int) == prefix
}

/// How an ampersand is written where it is escaped for HTML.
pub open spec fn escaped_ampersand() -> Seq<char> {
    seq!['&', 'a', 'm', 'p', ';']
}

/// `s` with every escaped ampersand, from left to right, turned into a plain one.
pub open spec fn unescape_ampersands(s: Seq<char>) -> Seq<char>
    decreases s.len(),
{
    if s.len() == 0 {
        s
    } else if is_prefix(escaped_ampersand(), s) {
        seq!['&'] + unescape_ampersands(s.skip(5))
    } else {
        seq![s[0]] + unescape_ampersands(s.skip(1))
    }
}

/// Where the query or the fragment of `url` starts: at its first question mark or
/// hash sign, or at its end if it has neither.
pub open spec fn query_start(url: Seq<char>) -> int
    decreases url.len(),
{
    if url.len() == 0 || url[0] == '?' || url[0] == '#' {
        0
    } else {
        1 + query_start(url.skip(1))
    }
}

/// Where the first slash of `s` stands, or the length of `s` if it has none.
pub open spec fn first_slash(s: Seq<char>) -> int
    decreases s.len(),
{
    if s.len() == 0 || s[0] == '/' {
        0
    } else {
        1 + first_slash(s.skip(1))
    }
}

/// Where the path starts in `s`, an address without query and fragment. Where the
/// first slash of `s` is the first of the two that follow the colon of a scheme, the
/// host comes behind them, and the path starts at the next slash, or is empty if there
/// is none. An address without a scheme is all path.
pub open spec fn path_start(s: Seq<char>) -> int {
    let slash = first_slash(s);
    if 0 < slash && slash + 1 < s.len() && s[slash - 1] == ':' && s[slash + 1] == '/' {
        slash + 2 + first_slash(s.skip(slash + 2))
    } else {
        0
    }
}

/// The path of the address `url`: what stands behind scheme and host and before the
/// query and the fragment.
pub open spec fn url_path(url: Seq<char>) -> Seq<char> {
    let s = url.take(query_start(url));
    s.skip(path_start(s))
}

/// Where the last stretch of `path` without a slash starts.
pub open spec fn segment_start(path: Seq<char>) -> int
    decreases path.len(),
{
    if path.len() == 0 || path.last() == '/' {
        path.len() as int
    } else {
        segment_start(path.drop_last())
    }
}

/// The last stretch of a path starts within the path.
pub proof fn lemma_segment_start_bounds(path: Seq<char>)
    ensures
        0 <= segment_start(path) <= path.len(),
    decreases path.len(),
{
    if !(path.len() == 0 || path.last() == '/') {
        lemma_segment_start_bounds(path.drop_last());
    }
}

/// The file name of `path`: its last stretch between slashes that is neither empty
/// nor a single dot. There is none where no such stretch exists, or where it is two dots.
pub open spec fn file_name(path: Seq<char>) -> Option<Seq<char>>
    decreases path.len(),
{
    let start = segment_start(path);
    let segment = path.skip(start);
    if segment.len() == 0 || segment == seq!['.'] {
        if start > 0 {
            proof {
                lemma_segment_start_bounds(path);
            }
            file_name(path.take(start - 1))
        } else {
            None
        }
    } else if segment == seq!['.', '.'] {
        None
    } else {
        Some(segment)
    }
}

/// Where the last dot of `name` stands, or -1 if it has none.
pub open spec fn last_dot(name: Seq<char>) -> int
    decreases name.len(),
{
    if name.len() == 0 {
        -1
    } else if name.last() == '.' {
        name.len() - 1
    } else {
        last_dot(name.drop_last())
    }
}

/// The extension of `path`: what follows the last dot of its file name. There is none
/// where there is no file name, where the name has no dot, or where its only dot
/// leads it.
pub open spec fn extension(path: Seq<char>) -> Option<Seq<char>> {
    match file_name(path) {
        Some(name) => {
            let dot = last_dot(name);
            if dot > 0 {
                Some(name.skip(dot + 1))
            } else {
                None
            }
        },
        None => None,
    }
}

/// The last stretch starts at `k` where no slash stands from `k` on and one stands
/// right before `k`, or `k` is the start of the path.
proof fn lemma_segment_start(path: Seq<char>, k: int)
    requires
        0 <= k <= path.len(),
        forall|j: int| k <= j < path.len() ==> path[j] != '/',
        k == 0 || path[k - 1] == '/',
    ensures
        segment_start(path) == k,
    decreases path.len(),
{
    if k < path.len() {
        lemma_segment_start(path.drop_last(), k);
    }
}

/// The last dot stands at `k` where none stands behind `k` and one stands at `k`, or
/// `k` is -1.
proof fn lemma_last_dot(name: Seq<char>, k: int)
    requires
        -1 <= k < name.len(),
        forall|j: int| k < j < name.len() ==> name[j] != '.',
        k == -1 || name[k] == '.',
    ensures
        last_dot(name) == k,
    decreases name.len(),
{
    if k + 1 < name.len() {
        lemma_last_dot(name.drop_last(), k);
    }
}

/// The extension of the file that `path` names.
pub fn path_extension(path: &str) -> (ext: Option<String>)
    ensures
        ext.deep_view() == extension(path@),
{
    let chars = to_chars(path);
    let mut end: usize = chars.len();
    assert(chars@.take(end as int) =~= chars@);
    loop
        invariant
            end <= chars.len(),
            chars@ == path@,
            file_name(chars@) == file_name(chars@.take(end as int)),
        decreases end,
    {
        let ghost head = chars@.take(end as int);
        let mut start: usize = end;
        while start > 0 && chars[start - 1] != '/'
            invariant
                start <= end <= chars.len(),
                head == chars@.take(end as int),
                forall|j: int| start <= j < end ==> head[j] != '/',
            decreases start,
        {
            start -= 1;
        }
        proof {
            lemma_segment_start(head, start as int);
        }
        let ghost segment = head.skip(start as int);
        let length: usize = end - start;
        if length == 0 || (length == 1 && chars[start] == '.') {
            assert(segment.len() == 0 || segment =~= seq!['.']);
            if start == 0 {
                return None;
            }
            assert(head.take(start - 1) =~= chars@.take(start - 1));
            end = start - 1;
        } else if length == 2 && chars[start] == '.' && chars[start + 1] == '.' {
            assert(segment =~= seq!['.', '.']);
            return None;
        } else {
            assert(segment != seq!['.']) by {
                if segment == seq!['.'] {
                    assert(segment.len() == 1 && segment[0] == '.');
                }
            }
            assert(segment != seq!['.', '.']) by {
                if segment == seq!['.', '.'] {
                    assert(segment.len() == 2 && segment[0] == '.' && segment[1] == '.');
                }
            }
            assert(file_name(chars@) == Some(segment));
            let mut dot: usize = end;
            while dot > start && chars[dot - 1] != '.'
                invariant
                    start <= dot <= end <= chars.len(),
                    segment == chars@.take(end as int).skip(start as int),
                    forall|j: int| dot - start <= j < segment.len() ==> segment[j] != '.',
                decreases dot,
            {
                dot -= 1;
            }
            proof {
                lemma_last_dot(segment, dot - start - 1);
            }
            if dot <= start + 1 {
                return None;
            }
            let found = path.substring_char(dot, end);
            assert(found@ =~= segment.skip(dot - start));
            return Some(String::from_str(found));
        }
    }
}

/// The query starts at `k` where no character before `k` opens a query or a
/// fragment and the character at `k`, if there is one, does.
proof fn lemma_query_start(url: Seq<char>, k: int)
    requires
        0 <= k <= url.len(),
        forall|j: int| 0 <= j < k ==> url[j] != '?' && url[j] != '#',
        k == url.len() || url[k] == '?' || url[k] == '#',
    ensures
        query_start(url) == k,
    decreases url.len(),
{
    if k > 0 {
        lemma_query_start(url.skip(1), k - 1);
    }
}

/// The first slash stands at `k` where no character before `k` is one and the
/// character at `k`, if there is one, is.
proof fn lemma_first_slash(s: Seq<char>, k: int)
    requires
        0 <= k <= s.len(),
        forall|j: int| 0 <= j < k ==> s[j] != '/',
        k == s.len() || s[k] == '/',
    ensures
        first_slash(s) == k,
    decreases s.len(),
{
    if k > 0 {
        lemma_first_slash(s.skip(1), k - 1);
    }
}

/// The extension of the file that the path of the address `url` names.
pub fn url_extension(url: &str) -> (ext: Option<String>)
    ensures
        ext.deep_view() == extension(url_path(url@)),
{
    let chars = to_chars(url);
    let mut cut: usize = 0;
    while cut < chars.len() && chars[cut] != '?' && chars[cut] != '#'
        invariant
            cut <= chars.len(),
            forall|j: int| 0 <= j < cut ==> chars@[j] != '?' && chars@[j] != '#',
        decreases chars.len() - cut,
    {
        cut += 1;
    }
    proof {
        lemma_query_start(chars@, cut as int);
    }
    let ghost s = chars@.take(cut as int);
    let mut slash: usize = 0;
    while slash < cut && chars[slash] != '/'
        invariant
            slash <= cut <= chars.len(),
            s == chars@.take(cut as int),
            forall|j: int| 0 <= j < slash ==> s[j] != '/',
        decreases cut - slash,
    {
        slash += 1;
    }
    proof {
        lemma_first_slash(s, slash as int);
    }
    let mut start: usize = 0;
    if 0 < slash && slash < cut && cut - slash > 1 && chars[slash - 1] == ':' && chars[slash + 1]
        == '/' {
        let ghost rest = s.skip(slash + 2);
        start = slash + 2;
        while start < cut && chars[start] != '/'
            invariant
                slash + 2 <= start <= cut <= chars.len(),
                s == chars@.take(cut as int),
                rest == s.skip(slash + 2),
                forall|j: int| 0 <= j < start - (slash + 2) ==> rest[j] != '/',
            decreases cut - start,
        {
            start += 1;
        }
        proof {
            lemma_first_slash(rest, start - (slash + 2));
        }
    }
    assert(path_start(s) == start);
    let path = url.substring_char(start, cut);
    assert(path@ =~= url_path(url@));
    path_extension(path)
}

/// `s` with every escaped ampersand turned into a plain one.
pub fn decode_ampersands(s: &str) -> (decoded: String)
    ensures
        decoded@ == unescape_ampersands(s@),
{
    let chars = to_chars(s);
    let n: usize = chars.len();
    let mut decoded = String::new();
    let mut run: usize = 0;
    let mut i: usize = 0;
    assert(chars@.skip(0) =~= chars@);
    assert(decoded@ + chars@.subrange(0, 0) + unescape_ampersands(chars@.skip(0))
        =~= unescape_ampersands(chars@));
    while i < n
        invariant
            run <= i <= n,
            n == chars.len(),
            chars@ == s@,
            unescape_ampersands(chars@) == decoded@ + chars@.subrange(run as int, i as int)
                + unescape_ampersands(chars@.skip(i as int)),
        decreases n - i,
    {
        let ghost rest = chars@.skip(i as int);
        let escaped = n - i >= 5 && chars[i] == '&' && chars[i + 1] == 'a' && chars[i + 2] == 'm'
            && chars[i + 3] == 'p' && chars[i + 4] == ';';
        if escaped {
            assert(rest.take(5) =~= escaped_ampersand());
            let ghost kept = decoded@ + chars@.subrange(run as int, i as int);
            decoded.append(s.substring_char(run, i));
            decoded.append("&");
            proof {
                reveal_strlit("&");
                assert(decoded@ =~= kept + seq!['&']);
                assert(rest.skip(5) =~= chars@.skip(i + 5));
                assert(chars@.subrange(i + 5, i + 5) =~= Seq::<char>::empty());
                assert(decoded@ + chars@.subrange(i + 5, i + 5) + unescape_ampersands(
                    chars@.skip(i + 5),
                ) =~= kept + (seq!['&'] + unescape_ampersands(rest.skip(5))));
            }
            i += 5;
            run = i;
        } else {
            proof {
                if is_prefix(escaped_ampersand(), rest) {
                    assert(rest.take(5) == escaped_ampersand());
                    assert(rest.take(5)[0] == '&' && rest.take(5)[1] == 'a' && rest.take(5)[2]
                        == 'm' && rest.take(5)[3] == 'p' && rest.take(5)[4] == ';');
                    assert(false);
                }
                assert(rest.skip(1) =~= chars@.skip(i + 1));
                assert(chars@.subrange(run as int, i + 1) =~= chars@.subrange(
                    run as int,
                    i as int,
                ) + seq![rest[0]]);
                assert(decoded@ + chars@.subrange(run as int, i + 1) + unescape_ampersands(
                    chars@.skip(i + 1),
                ) =~= decoded@ + chars@.subrange(run as int, i as int) + (seq![rest[0]]
                    + unescape_ampersands(rest.skip(1))));
            }
            i += 1;
        }
    }
    assert(chars@.skip(n as int) =~= Seq::<char>::empty());
    let ghost kept = decoded@;
    decoded.append(s.substring_char(run, n));
    assert(decoded@ =~= kept + chars@.subrange(run as int, n as int) + unescape_ampersands(
        chars@.skip(n as int),
    ));
    decoded
}

} // verus!
