//! Tool identifiers as mise reports them, and the short names they stand for.
//!
//! An identifier may carry a backend prefix (`go:`, `aqua:`, `github:`, ...)
//! followed by a slash-separated path. The short name is the path's last
//! component, or the one before it when the last one is a version.

use vstd::prelude::*;

use crate::text::is_ascii_digit;

verus! {

/// A character allowed in a dotted version number.
pub open spec fn is_digit_or_dot(c: char) -> bool {
    is_ascii_digit(c) || c == '.'
}

/// Every character of `s` is a digit or a dot.
pub open spec fn all_digits_or_dots(s: Seq<char>) -> bool {
    forall|i: int| 0 <= i < s.len() ==> is_digit_or_dot(#[trigger] s[i])
}

/// Some character of `s` is a digit.
pub open spec fn has_digit(s: Seq<char>) -> bool {
    exists|i: int| 0 <= i < s.len() && is_ascii_digit(#[trigger] s[i])
}

/// The word `latest`.
pub open spec fn latest_word() -> Seq<char> {
    seq!['l', 'a', 't', 'e', 's', 't']
}

/// Whether a path component names a version: `latest`, a `v` followed by at
/// least one digit-or-dot character and nothing else, or a nonempty run of
/// digits and dots that holds at least one digit.
pub open spec fn looks_like_version(s: Seq<char>) -> bool {
    if s == latest_word() {
        true
    } else if s.len() > 0 && s[0] == 'v' {
        s.len() > 1 && all_digits_or_dots(s.skip(1))
    } else {
        all_digits_or_dots(s) && has_digit(s)
    }
}

/// The first index at or after `i` where `s` holds `c`, or -1 if there is none.
pub open spec fn first_index_from(s: Seq<char>, c: char, i: nat) -> int
    decreases s.len() - i,
{
    if i >= s.len() {
        -1
    } else if s[i as int] == c {
        i as int
    } else {
        first_index_from(s, c, i + 1)
    }
}

/// The last index before `end` where `s` holds `c`, or -1 if there is none.
pub open spec fn last_index_before(s: Seq<char>, c: char, end: int) -> int
    decreases end,
{
    if end <= 0 {
        -1
    } else if s[end - 1] == c {
        end - 1
    } else {
        last_index_before(s, c, end - 1)
    }
}

/// The short name of a tool identifier.
///
/// Without a `:` the identifier is its own short name. With one, the part
/// after the first `:` is split at `/`; the short name is the last component,
/// unless that component looks like a version and a component precedes it,
/// in which case it is the preceding component.
pub open spec fn tool_name_of(id: Seq<char>) -> Seq<char> {
    let colon = first_index_from(id, ':', 0);
    if colon < 0 {
        id
    } else {
        let path = id.skip(colon + 1);
        let k = last_index_before(path, '/', path.len() as int);
        let last = path.skip(k + 1);
        if k >= 0 && looks_like_version(last) {
            path.subrange(last_index_before(path, '/', k) + 1, k)
        } else {
            last
        }
    }
}

/// The index of the first `c` in `s`.
fn find_char(s: &str, c: char) -> (r: Option<usize>)
    ensures
        match r {
            Some(i) => i < s@.len() && i as int == first_index_from(s@, c, 0),
            None => first_index_from(s@, c, 0) == -1,
        },
{
    let n = s.unicode_len();
    let mut i: usize = 0;
    while i < n
        invariant
            n == s@.len(),
            i <= n,
            first_index_from(s@, c, 0) == first_index_from(s@, c, i as nat),
        decreases n - i,
    {
        if s.get_char(i) == c {
            return Some(i);
        }
        i = i + 1;
    }
    None
}

/// Where the component that ends at `end` starts: one past the last `c`
/// before `end`, or 0 if there is none.
fn component_start(s: &str, c: char, end: usize) -> (r: usize)
    requires
        end <= s@.len(),
    ensures
        r <= end,
        r as int == last_index_before(s@, c, end as int) + 1,
{
    let mut j: usize = end;
    while j > 0
        invariant
            j <= end <= s@.len(),
            last_index_before(s@, c, end as int) == last_index_before(s@, c, j as int),
        decreases j,
    {
        if s.get_char(j - 1) == c {
            return j;
        }
        j = j - 1;
    }
    0
}

/// Whether a path component looks like a version identifier
/// (`v5`, `v1.0`, `2.3.1`, `latest`).
pub fn is_version_component(s: &str) -> (r: bool)
    ensures
        r == looks_like_version(s@),
{
    proof {
        reveal_strlit("latest");
        assert("latest"@ =~= latest_word());
    }
    if crate::text::str_eq(s, "latest") {
        return true;
    }
    let n = s.unicode_len();
    if n > 0 && s.get_char(0) == 'v' {
        if n == 1 {
            return false;
        }
        let mut i: usize = 1;
        while i < n
            invariant
                n == s@.len(),
                1 <= i <= n,
                s@ != latest_word(),
                s@[0] == 'v',
                forall|j: int| 1 <= j < i ==> is_digit_or_dot(#[trigger] s@[j]),
            decreases n - i,
        {
            let c = s.get_char(i);
            if !(('0' <= c && c <= '9') || c == '.') {
                assert(s@.skip(1)[i - 1] == c);
                return false;
            }
            i = i + 1;
        }
        assert forall|j: int| 0 <= j < s@.skip(1).len() implies is_digit_or_dot(
            #[trigger] s@.skip(1)[j],
        ) by {
            assert(s@.skip(1)[j] == s@[j + 1]);
        }
        return true;
    }
    let mut seen_digit = false;
    let mut i: usize = 0;
    while i < n
        invariant
            n == s@.len(),
            i <= n,
            s@ != latest_word(),
            !(n > 0 && s@[0] == 'v'),
            forall|j: int| 0 <= j < i ==> is_digit_or_dot(#[trigger] s@[j]),
            seen_digit <==> exists|j: int| 0 <= j < i && is_ascii_digit(#[trigger] s@[j]),
        decreases n - i,
    {
        let c = s.get_char(i);
        if !(('0' <= c && c <= '9') || c == '.') {
            return false;
        }
        if '0' <= c && c <= '9' {
            seen_digit = true;
        }
        i = i + 1;
    }
    seen_digit
}

/// The binary name of a tool identifier, which may carry a backend prefix.
///
/// `go:golang.org/x/tools/gopls` gives `gopls`,
/// `go:sigs.k8s.io/kustomize/kustomize/v5` gives `kustomize`,
/// `aqua:reteps/dockerfmt` gives `dockerfmt`, and `yq` stays `yq`.
pub fn extract_tool_name(tool_id: &str) -> (r: String)
    ensures
        r@ == tool_name_of(tool_id@),
{
    match find_char(tool_id, ':') {
        None => tool_id.to_owned(),
        Some(colon) => {
            let n = tool_id.unicode_len();
            let path = tool_id.substring_char(colon + 1, n);
            assert(path@ =~= tool_id@.skip(colon + 1));
            let m = path.unicode_len();
            let start = component_start(path, '/', m);
            let last = path.substring_char(start, m);
            assert(last@ =~= path@.skip(start as int));
            if start > 0 && is_version_component(last) {
                let prev_start = component_start(path, '/', start - 1);
                path.substring_char(prev_start, start - 1).to_owned()
            } else {
                last.to_owned()
            }
        },
    }
}

/// Where `first_index_from` can land.
proof fn lemma_first_index_from_bounds(s: Seq<char>, c: char, i: nat)
    ensures
        first_index_from(s, c, i) == -1 || (i <= first_index_from(s, c, i) < s.len() && s[first_index_from(s, c, i)] == c),
    decreases s.len() - i,
{
    if i < s.len() && s[i as int] != c {
        lemma_first_index_from_bounds(s, c, i + 1);
    }
}

/// Where `last_index_before` can land: on a `c`, with none after it before `end`.
proof fn lemma_last_index_before_bounds(s: Seq<char>, c: char, end: int)
    requires
        0 <= end <= s.len(),
    ensures
        -1 <= last_index_before(s, c, end) < end,
        last_index_before(s, c, end) >= 0 ==> s[last_index_before(s, c, end)] == c,
        forall|j: int| last_index_before(s, c, end) < j < end ==> #[trigger] s[j] != c,
    decreases end,
{
    if end > 0 && s[end - 1] != c {
        lemma_last_index_before_bounds(s, c, end - 1);
    }
}

/// The short name of an identifier with a backend prefix is a single path
/// component: it holds no `/`.
pub proof fn lemma_prefixed_short_name_has_no_slash(id: Seq<char>)
    requires
        first_index_from(id, ':', 0) >= 0,
    ensures
        forall|i: int| 0 <= i < tool_name_of(id).len() ==> #[trigger] tool_name_of(id)[i] != '/',
{
    let colon = first_index_from(id, ':', 0);
    lemma_first_index_from_bounds(id, ':', 0);
    let path = id.skip(colon + 1);
    let k = last_index_before(path, '/', path.len() as int);
    lemma_last_index_before_bounds(path, '/', path.len() as int);
    let last = path.skip(k + 1);
    if k >= 0 && looks_like_version(last) {
        let k2 = last_index_before(path, '/', k);
        lemma_last_index_before_bounds(path, '/', k);
        assert forall|i: int| 0 <= i < tool_name_of(id).len() implies #[trigger] tool_name_of(id)[i]
            != '/' by {
            assert(tool_name_of(id)[i] == path[k2 + 1 + i]);
        }
    } else {
        assert forall|i: int| 0 <= i < tool_name_of(id).len() implies #[trigger] tool_name_of(id)[i]
            != '/' by {
            assert(tool_name_of(id)[i] == path[k + 1 + i]);
        }
    }
}

/// An identifier without a backend prefix is its own short name.
pub proof fn lemma_unprefixed_id_is_its_own_name(id: Seq<char>)
    requires
        forall|i: int| 0 <= i < id.len() ==> #[trigger] id[i] != ':',
    ensures
        tool_name_of(id) == id,
{
    lemma_first_index_from_bounds(id, ':', 0);
}

/// What counts as a version, spelled out character by character: the word
/// `latest`; a `v` followed by one or more characters that are all ASCII
/// digits or dots; or a nonempty run of ASCII digits and dots that holds at
/// least one digit. Nothing else is a version.
pub proof fn lemma_versions_are_dotted_numbers(s: Seq<char>)
    ensures
        looks_like_version(s) <==> (s == seq!['l', 'a', 't', 'e', 's', 't'] || (s.len() > 1 && s[0] == 'v'
            && forall|i: int| 1 <= i < s.len() ==> ('0' <= #[trigger] s[i] <= '9' || s[i] == '.')) || ((
        forall|i: int| 0 <= i < s.len() ==> ('0' <= #[trigger] s[i] <= '9' || s[i] == '.')) && exists|
            i: int,
        | 0 <= i < s.len() && '0' <= #[trigger] s[i] <= '9')),
{
    assert(latest_word() =~= seq!['l', 'a', 't', 'e', 's', 't']);
    if s.len() > 1 && s[0] == 'v' {
        assert(all_digits_or_dots(s.skip(1)) <==> forall|i: int|
            1 <= i < s.len() ==> ('0' <= #[trigger] s[i] <= '9' || s[i] == '.')) by {
            if all_digits_or_dots(s.skip(1)) {
                assert forall|i: int| 1 <= i < s.len() implies ('0' <= #[trigger] s[i] <= '9' || s[i]
                    == '.') by {
                    assert(s.skip(1)[i - 1] == s[i]);
                }
            }
            if forall|i: int| 1 <= i < s.len() ==> ('0' <= #[trigger] s[i] <= '9' || s[i] == '.') {
                assert forall|j: int| 0 <= j < s.skip(1).len() implies is_digit_or_dot(
                    #[trigger] s.skip(1)[j],
                ) by {
                    assert(s.skip(1)[j] == s[j + 1]);
                }
            }
        }
        // a leading `v` is no digit, so the third shape does not apply
        assert(!('0' <= s[0] <= '9' || s[0] == '.'));
    } else if s.len() > 0 && s[0] == 'v' {
        assert(!('0' <= s[0] <= '9' || s[0] == '.'));
    }
}

/// `first_index_from` finds the first `c` at or after `i`.
proof fn lemma_first_index_at(s: Seq<char>, c: char, i: nat, k: int)
    requires
        i <= k < s.len(),
        s[k] == c,
        forall|j: int| i <= j < k ==> #[trigger] s[j] != c,
    ensures
        first_index_from(s, c, i) == k,
    decreases k - i,
{
    if i < k {
        lemma_first_index_at(s, c, i + 1, k);
    }
}

/// `last_index_before` finds the last `c` before `end`.
proof fn lemma_last_index_at(s: Seq<char>, c: char, end: int, k: int)
    requires
        0 <= k < end <= s.len(),
        s[k] == c,
        forall|j: int| k < j < end ==> #[trigger] s[j] != c,
    ensures
        last_index_before(s, c, end) == k,
    decreases end,
{
    if end - 1 > k {
        lemma_last_index_at(s, c, end - 1, k);
    }
}

/// `last_index_before` is -1 when there is no `c` before `end`.
proof fn lemma_last_index_none(s: Seq<char>, c: char, end: int)
    requires
        0 <= end <= s.len(),
        forall|j: int| 0 <= j < end ==> #[trigger] s[j] != c,
    ensures
        last_index_before(s, c, end) == -1,
    decreases end,
{
    if end > 0 {
        lemma_last_index_none(s, c, end - 1);
    }
}

/// The short name of `p:path`, where `p` holds no `:`, is a component of
/// `path`: with no `/` in `path` it is `path` itself, version or not; when the
/// last component (after the last `/`) is not a version — it is not `latest`
/// and holds a character other than an ASCII digit or `.` that is not a
/// leading `v` — it is that last component; and when the last component is a
/// `v` followed by digits and dots, it is the component before it.
pub proof fn lemma_short_name_is_a_path_component(
    p: Seq<char>,
    r: Seq<char>,
    prev: Seq<char>,
    last: Seq<char>,
)
    requires
        forall|i: int| 0 <= i < p.len() ==> #[trigger] p[i] != ':',
        forall|i: int| 0 <= i < prev.len() ==> #[trigger] prev[i] != '/',
        forall|i: int| 0 <= i < last.len() ==> #[trigger] last[i] != '/',
    ensures
        tool_name_of(p + seq![':'] + last) == last,
        (last != seq!['l', 'a', 't', 'e', 's', 't'] && exists|i: int|
            0 <= i < last.len() && !('0' <= #[trigger] last[i] <= '9' || last[i] == '.') && !(i == 0
                && last[i] == 'v')) ==> tool_name_of(p + seq![':'] + r + seq!['/'] + last) == last,
        (last.len() > 1 && last[0] == 'v' && forall|i: int|
            1 <= i < last.len() ==> ('0' <= #[trigger] last[i] <= '9' || last[i] == '.')) ==> tool_name_of(
            p + seq![':'] + r + seq!['/'] + prev + seq!['/'] + last,
        ) == prev,
{
    lemma_versions_are_dotted_numbers(last);
    // no `/` at all
    let id1 = p + seq![':'] + last;
    lemma_first_index_at(id1, ':', 0, p.len() as int);
    let path1 = id1.skip(p.len() as int + 1);
    assert(path1 =~= last);
    lemma_last_index_none(path1, '/', path1.len() as int);
    assert(path1.skip(0) =~= path1);
    // a last component after a `/`
    let id2 = p + seq![':'] + r + seq!['/'] + last;
    lemma_first_index_at(id2, ':', 0, p.len() as int);
    let path2 = id2.skip(p.len() as int + 1);
    assert(path2 =~= r + seq!['/'] + last);
    assert forall|j: int| r.len() < j < path2.len() implies #[trigger] path2[j] != '/' by {
        assert(path2[j] == last[j - r.len() - 1]);
    }
    lemma_last_index_at(path2, '/', path2.len() as int, r.len() as int);
    assert(path2.skip(r.len() as int + 1) =~= last);
    if last != seq!['l', 'a', 't', 'e', 's', 't'] && exists|i: int|
        0 <= i < last.len() && !('0' <= #[trigger] last[i] <= '9' || last[i] == '.') && !(i == 0
            && last[i] == 'v') {
        let i = choose|i: int|
            0 <= i < last.len() && !('0' <= #[trigger] last[i] <= '9' || last[i] == '.') && !(i == 0
                && last[i] == 'v');
        assert(!looks_like_version(last)) by {
            if i == 0 {
                assert(last[0] != 'v');
            }
        }
    }
    // a version after a previous component
    let id3 = p + seq![':'] + r + seq!['/'] + prev + seq!['/'] + last;
    lemma_first_index_at(id3, ':', 0, p.len() as int);
    let path3 = id3.skip(p.len() as int + 1);
    let k: int = (r.len() + 1 + prev.len()) as int;
    assert(path3 =~= r + seq!['/'] + prev + seq!['/'] + last);
    assert forall|j: int| k < j < path3.len() implies #[trigger] path3[j] != '/' by {
        assert(path3[j] == last[j - k - 1]);
    }
    lemma_last_index_at(path3, '/', path3.len() as int, k as int);
    assert forall|j: int| r.len() < j < k implies #[trigger] path3[j] != '/' by {
        assert(path3[j] == prev[j - r.len() - 1]);
    }
    lemma_last_index_at(path3, '/', k as int, r.len() as int);
    assert(path3.skip(k + 1) =~= last);
    assert(path3.subrange(r.len() as int + 1, k) =~= prev);
}

} // verus!
