//! Small text formats: items typed with a category prefix, note
//! frontmatter, server addresses, and the kind of a synced path.

use vstd::prelude::*;

use crate::lines::{
    join_lines, lacks, lemma_lines_of_join_then, lemma_newline_index_bounds, lines_of, newline_index, split_lines,
    strip_cr,
};
use crate::list::{contains_chars, occurs_in};
use crate::text::{
    char_index, chars_of, concat_chars, decimal, decimal_chars, ends_with,
    has_prefix, has_suffix, lemma_char_index_bounds, lemma_char_index_is, owned, replace_all,
    replace_chars, slice_chars, starts_with, string_of, trim_char, trim_matching, trim_start_spec, is_white_space,
};

verus! {

broadcast use vstd::string::group_string_axioms;

/// An item typed as `##category text`: the category when it is not empty
/// and a space follows it, and the text.
pub open spec fn item_input(input: Seq<char>) -> (Option<Seq<char>>, Seq<char>) {
    let sp = char_index(input, ' ');
    if has_prefix(input, "##"@) && sp < input.len() && sp > 2 {
        (Some(input.subrange(2, sp)), input.subrange(sp + 1, input.len() as int))
    } else {
        (None, input)
    }
}

fn first_space(cs: &Vec<char>) -> (r: usize)
    ensures
        r == char_index(cs@, ' '),
{
    proof {
        lemma_char_index_bounds(cs@, ' ');
    }
    let mut i: usize = 0;
    while i < cs.len() && cs[i] != ' '
        invariant
            i <= cs@.len(),
            forall|j: int| 0 <= j < i ==> cs@[j] != ' ',
        decreases cs@.len() - i,
    {
        i = i + 1;
    }
    proof {
        lemma_char_index_is(cs@, ' ', i as int);
    }
    i
}

/// Split an item typed as `##category text` into its category and text;
/// other input is uncategorized text.
pub fn parse_item_input(input: &str) -> (r: (Option<String>, String))
    ensures
        (match r.0 {
            Some(c) => Some(c@),
            None => None,
        }, r.1@) == item_input(input@),
{
    proof {
        reveal_strlit("##");
    }
    let cs = chars_of(input);
    let hash = chars_of("##");
    if starts_with(&cs, &hash) {
        let sp = first_space(&cs);
        if sp < cs.len() && sp > 2 {
            let c = slice_chars(&cs, 2, sp);
            let t = slice_chars(&cs, sp + 1, cs.len());
            return (Some(string_of(&c)), string_of(&t));
        }
    }
    (None, owned(input))
}

/// An item typed as `##category text` for the command line: everything
/// between `##` and the first space is the category (possibly empty);
/// without a space the input stays uncategorized text.
pub open spec fn item_with_category(input: Seq<char>) -> (Option<Seq<char>>, Seq<char>) {
    if has_prefix(input, "##"@) {
        let rest = input.subrange(2, input.len() as int);
        let sp = char_index(rest, ' ');
        if sp < rest.len() {
            (Some(rest.subrange(0, sp)), rest.subrange(sp + 1, rest.len() as int))
        } else {
            (None, input)
        }
    } else {
        (None, input)
    }
}

/// Split item text with a `##category` prefix into category and text.
pub fn parse_item_with_category(input: &str) -> (r: (Option<String>, String))
    ensures
        (match r.0 {
            Some(c) => Some(c@),
            None => None,
        }, r.1@) == item_with_category(input@),
{
    proof {
        reveal_strlit("##");
    }
    let cs = chars_of(input);
    let hash = chars_of("##");
    if starts_with(&cs, &hash) {
        let rest = slice_chars(&cs, 2, cs.len());
        let sp = first_space(&rest);
        if sp < rest.len() {
            let c = slice_chars(&rest, 0, sp);
            let t = slice_chars(&rest, sp + 1, rest.len());
            return (Some(string_of(&c)), string_of(&t));
        }
    }
    (None, owned(input))
}

/// A server URL as a WebSocket sync endpoint: `http://` becomes `ws://`,
/// `https://` becomes `wss://`, and `/api/sync` is appended unless already
/// there (with a `/` before it unless the URL ends in one).
pub open spec fn ws_url(server_url: Seq<char>) -> Seq<char> {
    let u = replace_all(replace_all(server_url, "http://"@, "ws://"@), "https://"@, "wss://"@);
    if has_suffix(u, "/api/sync"@) {
        u
    } else if has_suffix(u, "/"@) {
        u + "api/sync"@
    } else {
        u + "/api/sync"@
    }
}

/// The sync endpoint of any server URL ends in `/api/sync`.
pub proof fn lemma_ws_url_suffix(server_url: Seq<char>)
    ensures
        has_suffix(ws_url(server_url), "/api/sync"@),
{
    reveal_strlit("/api/sync");
    reveal_strlit("api/sync");
    reveal_strlit("/");
    let u = replace_all(replace_all(server_url, "http://"@, "ws://"@), "https://"@, "wss://"@);
    if !has_suffix(u, "/api/sync"@) {
        if has_suffix(u, "/"@) {
            let w = u + "api/sync"@;
            assert(u.subrange(u.len() - 1, u.len() as int) == "/"@);
            assert(u[u.len() - 1] == u.subrange(u.len() - 1, u.len() as int)[0]);
            assert(w.subrange(w.len() - 9, w.len() as int) =~= "/api/sync"@);
        } else {
            let w = u + "/api/sync"@;
            assert(w.subrange(w.len() - 9, w.len() as int) =~= "/api/sync"@);
        }
    }
}

/// What `replace_all` leaves in front is what the text had in front, for a
/// front part that never holds the first character of the replacement.
proof fn lemma_replace_keeps_prefix(s: Seq<char>, pat: Seq<char>, rep: Seq<char>, z: Seq<char>)
    requires
        pat.len() > 0,
        rep.len() > 0,
        forall|i: int| 0 <= i < z.len() ==> z[i] != rep[0],
        has_prefix(replace_all(s, pat, rep), z),
    ensures
        has_prefix(s, z),
    decreases z.len(),
{
    let t = replace_all(s, pat, rep);
    if z.len() == 0 {
        assert(s.subrange(0, 0) =~= z);
    } else if s.len() < pat.len() {
        assert(t == s);
    } else if s.subrange(0, pat.len() as int) == pat {
        let t2 = replace_all(s.subrange(pat.len() as int, s.len() as int), pat, rep);
        assert(t == rep + t2);
        assert(t[0] == rep[0]);
        assert(t.subrange(0, z.len() as int)[0] == t[0]);
        assert(z[0] != rep[0]);
    } else {
        let s2 = s.drop_first();
        let t2 = replace_all(s2, pat, rep);
        assert(t == seq![s[0]] + t2);
        assert(t[0] == s[0]);
        assert(t.subrange(0, z.len() as int)[0] == t[0]);
        let z2 = z.drop_first();
        assert(t2.subrange(0, z2.len() as int) =~= t.subrange(0, z.len() as int).drop_first());
        assert(z2 =~= t.subrange(0, z.len() as int).drop_first());
        lemma_replace_keeps_prefix(s2, pat, rep, z2);
        assert(s.subrange(0, z.len() as int) =~= seq![s[0]] + s2.subrange(0, z2.len() as int));
        assert(z =~= seq![z[0]] + z2);
    }
}

/// After every occurrence of `pat` is replaced by `rep`, none is left, when
/// no character of `rep` is the first of `pat` and no later character of
/// `pat` is the first of `rep`.
proof fn lemma_replace_removes(s: Seq<char>, pat: Seq<char>, rep: Seq<char>)
    requires
        pat.len() > 0,
        rep.len() > 0,
        forall|i: int| 0 <= i < rep.len() ==> rep[i] != pat[0],
        forall|i: int| 1 <= i < pat.len() ==> pat[i] != rep[0],
    ensures
        !occurs_in(replace_all(s, pat, rep), pat),
    decreases s.len(),
{
    let t = replace_all(s, pat, rep);
    let n = pat.len() as int;
    if s.len() < pat.len() {
        assert(t == s);
    } else if s.subrange(0, n) == pat {
        let s2 = s.subrange(n, s.len() as int);
        let t2 = replace_all(s2, pat, rep);
        lemma_replace_removes(s2, pat, rep);
        assert(t == rep + t2);
        if occurs_in(t, pat) {
            let i = choose|i: int| 0 <= i && i + n <= t.len() && #[trigger] t.subrange(i, i + n) == pat;
            if i < rep.len() {
                assert(t.subrange(i, i + n)[0] == t[i]);
                assert(t[i] == rep[i]);
            } else {
                assert(t2.subrange(i - rep.len(), i - rep.len() + n) =~= t.subrange(i, i + n));
            }
        }
    } else {
        let s2 = s.drop_first();
        let t2 = replace_all(s2, pat, rep);
        lemma_replace_removes(s2, pat, rep);
        assert(t == seq![s[0]] + t2);
        if occurs_in(t, pat) {
            let i = choose|i: int| 0 <= i && i + n <= t.len() && #[trigger] t.subrange(i, i + n) == pat;
            if i >= 1 {
                assert(t2.subrange(i - 1, i - 1 + n) =~= t.subrange(i, i + n));
            } else {
                let z = pat.drop_first();
                assert forall|k: int| 0 <= k < z.len() implies z[k] != rep[0] by {
                    assert(z[k] == pat[k + 1]);
                }
                assert(t.subrange(1, n) =~= pat.subrange(1, n)) by {
                    assert forall|k: int| 0 <= k < n - 1 implies t.subrange(1, n)[k] == pat.subrange(1, n)[k] by {
                        assert(t.subrange(0, n)[k + 1] == t[k + 1]);
                    }
                }
                assert(t2.subrange(0, z.len() as int) =~= t.subrange(1, n));
                assert(z =~= pat.subrange(1, n));
                lemma_replace_keeps_prefix(s2, pat, rep, z);
                assert(s.subrange(0, n) =~= seq![s[0]] + s2.subrange(0, z.len() as int));
                assert(t.subrange(0, n)[0] == t[0]);
                assert(t[0] == s[0]);
                assert(pat =~= seq![pat[0]] + z);
                assert(s.subrange(0, n) =~= pat);
            }
        }
    }
}

/// Replacing `pat` by `rep` puts no occurrence of `q` into a text without
/// one, when no character of `rep` is the first of `q` and no later
/// character of `q` is the first of `rep`.
proof fn lemma_replace_keeps_absent(s: Seq<char>, pat: Seq<char>, rep: Seq<char>, q: Seq<char>)
    requires
        pat.len() > 0,
        rep.len() > 0,
        q.len() > 0,
        forall|i: int| 0 <= i < rep.len() ==> rep[i] != q[0],
        forall|i: int| 1 <= i < q.len() ==> q[i] != rep[0],
        !occurs_in(s, q),
    ensures
        !occurs_in(replace_all(s, pat, rep), q),
    decreases s.len(),
{
    let t = replace_all(s, pat, rep);
    let n = pat.len() as int;
    let m = q.len() as int;
    if s.len() < pat.len() {
        assert(t == s);
    } else if s.subrange(0, n) == pat {
        let s2 = s.subrange(n, s.len() as int);
        let t2 = replace_all(s2, pat, rep);
        assert(!occurs_in(s2, q)) by {
            if occurs_in(s2, q) {
                let i = choose|i: int| 0 <= i && i + m <= s2.len() && #[trigger] s2.subrange(i, i + m) == q;
                assert(s.subrange(i + n, i + n + m) =~= s2.subrange(i, i + m));
            }
        }
        lemma_replace_keeps_absent(s2, pat, rep, q);
        assert(t == rep + t2);
        if occurs_in(t, q) {
            let i = choose|i: int| 0 <= i && i + m <= t.len() && #[trigger] t.subrange(i, i + m) == q;
            if i < rep.len() {
                assert(t.subrange(i, i + m)[0] == t[i]);
                assert(t[i] == rep[i]);
            } else {
                assert(t2.subrange(i - rep.len(), i - rep.len() + m) =~= t.subrange(i, i + m));
            }
        }
    } else {
        let s2 = s.drop_first();
        let t2 = replace_all(s2, pat, rep);
        assert(!occurs_in(s2, q)) by {
            if occurs_in(s2, q) {
                let i = choose|i: int| 0 <= i && i + m <= s2.len() && #[trigger] s2.subrange(i, i + m) == q;
                assert(s.subrange(i + 1, i + 1 + m) =~= s2.subrange(i, i + m));
            }
        }
        lemma_replace_keeps_absent(s2, pat, rep, q);
        assert(t == seq![s[0]] + t2);
        if occurs_in(t, q) {
            let i = choose|i: int| 0 <= i && i + m <= t.len() && #[trigger] t.subrange(i, i + m) == q;
            if i >= 1 {
                assert(t2.subrange(i - 1, i - 1 + m) =~= t.subrange(i, i + m));
            } else {
                let z = q.drop_first();
                assert forall|k: int| 0 <= k < z.len() implies z[k] != rep[0] by {
                    assert(z[k] == q[k + 1]);
                }
                assert(t.subrange(1, m) =~= q.subrange(1, m)) by {
                    assert forall|k: int| 0 <= k < m - 1 implies t.subrange(1, m)[k] == q.subrange(1, m)[k] by {
                        assert(t.subrange(0, m)[k + 1] == t[k + 1]);
                    }
                }
                assert(t2.subrange(0, z.len() as int) =~= t.subrange(1, m));
                assert(z =~= q.subrange(1, m));
                lemma_replace_keeps_prefix(s2, pat, rep, z);
                assert(s.subrange(0, m) =~= seq![s[0]] + s2.subrange(0, z.len() as int));
                assert(t.subrange(0, m)[0] == t[0]);
                assert(t[0] == s[0]);
                assert(q =~= seq![q[0]] + z);
                assert(s.subrange(0, m) =~= q);
            }
        }
    }
}

/// Replacing what does not occur changes nothing.
proof fn lemma_replace_absent(s: Seq<char>, pat: Seq<char>, rep: Seq<char>)
    requires
        !occurs_in(s, pat),
    ensures
        replace_all(s, pat, rep) == s,
    decreases s.len(),
{
    if pat.len() > 0 && s.len() >= pat.len() {
        if s.subrange(0, pat.len() as int) == pat {
            assert(s.subrange(0, 0 + pat.len() as int) == pat);
        }
        let s2 = s.drop_first();
        assert(!occurs_in(s2, pat)) by {
            if occurs_in(s2, pat) {
                let i = choose|i: int| 0 <= i && i + pat.len() <= s2.len() && #[trigger] s2.subrange(i, i + pat.len()) == pat;
                assert(s.subrange(i + 1, i + 1 + pat.len()) =~= s2.subrange(i, i + pat.len()));
            }
        }
        lemma_replace_absent(s2, pat, rep);
        assert(seq![s[0]] + s2 =~= s);
    }
}

/// No occurrence of `q` in `a + b` when none lies inside `a`, no character
/// of `b` starts one, and none runs from the end of `a` into `b`.
proof fn lemma_no_occurrence_in_join(a: Seq<char>, b: Seq<char>, q: Seq<char>)
    requires
        q.len() > 0,
        !occurs_in(a, q),
        forall|j: int| 0 <= j < b.len() ==> b[j] != q[0],
        forall|k: int|
            1 <= k < q.len() ==> !(has_suffix(a, q.subrange(0, k)) && has_prefix(b, q.subrange(k, q.len() as int))),
    ensures
        !occurs_in(a + b, q),
{
    let w = a + b;
    let n = q.len() as int;
    if occurs_in(w, q) {
        let i = choose|i: int| 0 <= i && i + n <= w.len() && #[trigger] w.subrange(i, i + n) == q;
        assert(w.subrange(i, i + n)[0] == w[i]);
        if i + n <= a.len() {
            assert(a.subrange(i, i + n) =~= w.subrange(i, i + n));
        } else if i >= a.len() {
            assert(w[i] == b[i - a.len()]);
        } else {
            let k = a.len() - i;
            assert(a.subrange(a.len() - k, a.len() as int) =~= q.subrange(0, k)) by {
                assert forall|j: int| 0 <= j < k implies a.subrange(a.len() - k, a.len() as int)[j] == q.subrange(0, k)[j] by {
                    assert(w.subrange(i, i + n)[j] == w[i + j]);
                }
            }
            assert(b.subrange(0, n - k) =~= q.subrange(k, n)) by {
                assert forall|j: int| 0 <= j < n - k implies b.subrange(0, n - k)[j] == q.subrange(k, n)[j] by {
                    assert(w.subrange(i, i + n)[k + j] == w[i + k + j]);
                }
            }
        }
    }
}

/// A WebSocket scheme prefix in place of `http://` or `https://` leaves no
/// `http` scheme behind.
proof fn lemma_no_http_scheme(u: Seq<char>)
    requires
        !occurs_in(u, "http://"@),
        !occurs_in(u, "https://"@),
    ensures
        !occurs_in(u + "api/sync"@, "http://"@),
        !occurs_in(u + "api/sync"@, "https://"@),
        !has_suffix(u, "/"@) ==> !occurs_in(u + "/api/sync"@, "http://"@),
        !has_suffix(u, "/"@) ==> !occurs_in(u + "/api/sync"@, "https://"@),
{
    reveal_strlit("http://");
    reveal_strlit("https://");
    reveal_strlit("api/sync");
    reveal_strlit("/api/sync");
    reveal_strlit("/");
    assert forall|k: int| 1 <= k < 7 implies !has_prefix("api/sync"@, "http://"@.subrange(k, 7)) by {
        if has_prefix("api/sync"@, "http://"@.subrange(k, 7)) {
            assert("api/sync"@.subrange(0, 7 - k)[0] == "api/sync"@[0]);
        }
    }
    assert forall|k: int| 1 <= k < 8 implies !has_prefix("api/sync"@, "https://"@.subrange(k, 8)) by {
        if has_prefix("api/sync"@, "https://"@.subrange(k, 8)) {
            assert("api/sync"@.subrange(0, 8 - k)[0] == "api/sync"@[0]);
        }
    }
    lemma_no_occurrence_in_join(u, "api/sync"@, "http://"@);
    lemma_no_occurrence_in_join(u, "api/sync"@, "https://"@);
    if !has_suffix(u, "/"@) {
        assert forall|k: int| 1 <= k < 7 implies !(has_suffix(u, "http://"@.subrange(0, k))
            && has_prefix("/api/sync"@, "http://"@.subrange(k, 7))) by {
            if k == 6 && has_suffix(u, "http://"@.subrange(0, k)) {
                assert(u.subrange(u.len() - 6, u.len() as int)[5] == u[u.len() - 1]);
                assert(u.subrange(u.len() - 1, u.len() as int) =~= "/"@);
            }
            if k < 6 && has_prefix("/api/sync"@, "http://"@.subrange(k, 7)) {
                assert("/api/sync"@.subrange(0, 7 - k)[0] == "/api/sync"@[0]);
                assert("/api/sync"@.subrange(0, 7 - k)[1] == "/api/sync"@[1]);
            }
        }
        assert forall|k: int| 1 <= k < 8 implies !(has_suffix(u, "https://"@.subrange(0, k))
            && has_prefix("/api/sync"@, "https://"@.subrange(k, 8))) by {
            if k == 7 && has_suffix(u, "https://"@.subrange(0, k)) {
                assert(u.subrange(u.len() - 7, u.len() as int)[6] == u[u.len() - 1]);
                assert(u.subrange(u.len() - 1, u.len() as int) =~= "/"@);
            }
            if k < 7 && has_prefix("/api/sync"@, "https://"@.subrange(k, 8)) {
                assert("/api/sync"@.subrange(0, 8 - k)[0] == "/api/sync"@[0]);
                assert("/api/sync"@.subrange(0, 8 - k)[1] == "/api/sync"@[1]);
            }
        }
        lemma_no_occurrence_in_join(u, "/api/sync"@, "http://"@);
        lemma_no_occurrence_in_join(u, "/api/sync"@, "https://"@);
    }
}

/// The sync endpoint of any server URL holds no `http://` or `https://`,
/// ends in `/api/sync`, and is its own endpoint.
pub proof fn lemma_ws_url_normal(server_url: Seq<char>)
    ensures
        has_suffix(ws_url(server_url), "/api/sync"@),
        !occurs_in(ws_url(server_url), "http://"@),
        !occurs_in(ws_url(server_url), "https://"@),
        ws_url(ws_url(server_url)) == ws_url(server_url),
{
    reveal_strlit("http://");
    reveal_strlit("https://");
    reveal_strlit("ws://");
    reveal_strlit("wss://");
    let u1 = replace_all(server_url, "http://"@, "ws://"@);
    let u = replace_all(u1, "https://"@, "wss://"@);
    lemma_replace_removes(server_url, "http://"@, "ws://"@);
    lemma_replace_keeps_absent(u1, "https://"@, "wss://"@, "http://"@);
    lemma_replace_removes(u1, "https://"@, "wss://"@);
    lemma_no_http_scheme(u);
    lemma_ws_url_suffix(server_url);
    let w = ws_url(server_url);
    lemma_replace_absent(w, "http://"@, "ws://"@);
    lemma_replace_absent(w, "https://"@, "wss://"@);
}

/// The WebSocket sync endpoint for a server URL.
pub fn normalize_ws_url(server_url: &str) -> (r: String)
    ensures
        r@ == ws_url(server_url@),
{
    proof {
        reveal_strlit("http://");
        reveal_strlit("https://");
        reveal_strlit("/");
    }
    let cs = chars_of(server_url);
    let a = replace_chars(&cs, &chars_of("http://"), &chars_of("ws://"));
    let b = replace_chars(&a, &chars_of("https://"), &chars_of("wss://"));
    let mut url = string_of(&b);
    if !ends_with(&b, &chars_of("/api/sync")) {
        if !ends_with(&b, &chars_of("/")) {
            url.append("/");
        }
        url.append("api/sync");
        proof {
            reveal_strlit("api/sync");
            reveal_strlit("/api/sync");
            assert("/"@ + "api/sync"@ =~= "/api/sync"@);
            assert(b@ + "/"@ + "api/sync"@ =~= b@ + "/api/sync"@);
        }
    }
    url
}

/// The document type of a synced path: a list when the path holds
/// `/lists/` or `daily_lists`, else a note.
pub open spec fn doc_type_of(path: Seq<char>) -> Seq<char> {
    if occurs_in(path, "/lists/"@) || occurs_in(path, "daily_lists"@) {
        "list"@
    } else {
        "note"@
    }
}

/// The document type of a synced path.
pub fn detect_doc_type(path: &str) -> (r: &'static str)
    ensures
        r@ == doc_type_of(path@),
{
    let cs = chars_of(path);
    if contains_chars(&cs, &chars_of("/lists/")) || contains_chars(&cs, &chars_of("daily_lists")) {
        "list"
    } else {
        "note"
    }
}

/// `http://<host>:<port>`.
pub open spec fn http_url(host: Seq<char>, port: u16) -> Seq<char> {
    "http://"@ + host + ":"@ + decimal(port as nat)
}

/// `ws://<host>:<port>/api/sync`.
pub open spec fn websocket_url(host: Seq<char>, port: u16) -> Seq<char> {
    "ws://"@ + host + ":"@ + decimal(port as nat) + "/api/sync"@
}

/// The HTTP base URL of a server.
pub fn build_http_url(host: &str, port: u16) -> (r: String)
    ensures
        r@ == http_url(host@, port),
{
    let mut s = owned("http://");
    s.append(host);
    s.append(":");
    let d = string_of(&decimal_chars(port as u64));
    s.append(d.as_str());
    s
}

/// The WebSocket sync URL of a server.
pub fn build_websocket_url(host: &str, port: u16) -> (r: String)
    ensures
        r@ == websocket_url(host@, port),
{
    let mut s = owned("ws://");
    s.append(host);
    s.append(":");
    let d = string_of(&decimal_chars(port as u64));
    s.append(d.as_str());
    s.append("/api/sync");
    s
}

/// The first line after the opening one that is exactly `---`, if any.
pub open spec fn closing_line(lines: Seq<Seq<char>>) -> Option<int> {
    if exists|i: int| 1 <= i < lines.len() && lines[i] == "---"@ {
        Some(choose|i: int| 1 <= i < lines.len() && lines[i] == "---"@ && forall|j: int| 1 <= j < i ==> lines[j] != "---"@)
    } else {
        None
    }
}

/// The title and creation time that frontmatter lines give, starting from
/// `title` and `created`: a `title: ` line sets the title (without
/// surrounding quotes), a `created: ` line the creation time; the last one
/// wins.
pub open spec fn frontmatter_fields(lines: Seq<Seq<char>>, title: Seq<char>) -> (Seq<char>, Option<Seq<char>>)
    decreases lines.len(),
{
    if lines.len() == 0 {
        (title, None)
    } else {
        let (t, c) = frontmatter_fields(lines.drop_last(), title);
        let l = lines.last();
        if has_prefix(l, "title: "@) {
            (trim_matching(l.subrange(7, l.len() as int), '"'), c)
        } else if has_prefix(l, "created: "@) {
            (t, Some(l.subrange(9, l.len() as int)))
        } else {
            (t, c)
        }
    }
}

/// Lines joined with `\n` between them.
pub open spec fn joined(lines: Seq<Seq<char>>) -> Seq<char>
    decreases lines.len(),
{
    if lines.len() == 0 {
        Seq::empty()
    } else if lines.len() == 1 {
        lines[0]
    } else {
        joined(lines.drop_last()) + seq!['\n'] + lines.last()
    }
}

/// A note's title, creation time and body: from frontmatter between a first
/// line `---` and the next line `---`, with the body after it (leading white
/// space trimmed); without such frontmatter, the fallback title and the
/// whole content.
pub open spec fn note_parts(content: Seq<char>, fallback: Seq<char>) -> (Seq<char>, Option<Seq<char>>, Seq<char>) {
    let ls = lines_of(content);
    if ls.len() == 0 || ls[0] != "---"@ {
        (fallback, None, content)
    } else {
        match closing_line(ls) {
            None => (fallback, None, content),
            Some(end) => {
                let (t, c) = frontmatter_fields(ls.subrange(1, end), fallback);
                (t, c, trim_start_spec(joined(ls.subrange(end + 1, ls.len() as int))))
            },
        }
    }
}

/// Joining a first line and more lines puts a `'\n'` between them.
proof fn lemma_joined_front(x: Seq<char>, ls: Seq<Seq<char>>)
    requires
        ls.len() > 0,
    ensures
        joined(seq![x] + ls) == x + seq!['\n'] + joined(ls),
    decreases ls.len(),
{
    let all = seq![x] + ls;
    assert(joined(all) == joined(all.drop_last()) + seq!['\n'] + all.last());
    if ls.len() == 1 {
        assert(all.drop_last() =~= seq![x]);
        assert(joined(seq![x]) == x);
        assert(all.last() == ls[0]);
        assert(joined(ls) == ls[0]);
    } else {
        assert(all.drop_last() =~= seq![x] + ls.drop_last());
        assert(all.last() == ls.last());
        lemma_joined_front(x, ls.drop_last());
        assert(joined(ls) == joined(ls.drop_last()) + seq!['\n'] + ls.last());
        assert(x + seq!['\n'] + joined(ls.drop_last()) + seq!['\n'] + ls.last() =~= x + seq!['\n'] + joined(ls));
    }
}

/// A text without `'\r'` that does not end in `'\n'` is its lines joined.
proof fn lemma_joined_lines_of(s: Seq<char>)
    requires
        lacks(s, '\r'),
        s.len() == 0 || s.last() != '\n',
    ensures
        joined(lines_of(s)) == s,
    decreases s.len(),
{
    if s.len() > 0 {
        let i = newline_index(s);
        lemma_newline_index_bounds(s);
        if i < s.len() {
            let head = s.subrange(0, i);
            let rest = s.subrange(i + 1, s.len() as int);
            assert(strip_cr(head) == head) by {
                if head.len() > 0 {
                    assert(head.last() == s[i - 1]);
                }
            }
            assert(rest.len() > 0) by {
                if rest.len() == 0 {
                    assert(s.last() == s[i]);
                }
            }
            assert(rest.last() == s.last());
            assert forall|j: int| 0 <= j < rest.len() implies rest[j] != '\r' by {
                assert(rest[j] == s[i + 1 + j]);
            }
            lemma_joined_lines_of(rest);
            assert(lines_of(rest).len() > 0);
            lemma_joined_front(head, lines_of(rest));
            assert(lines_of(s) == seq![head] + lines_of(rest));
            assert(head + seq!['\n'] + rest =~= s);
        } else {
            assert(lines_of(s) == seq![s]);
        }
    }
}

/// A text in double quotes loses exactly them, when it neither starts nor
/// ends with one.
proof fn lemma_trim_quotes(t: Seq<char>)
    requires
        t.len() == 0 || (t[0] != '"' && t.last() != '"'),
    ensures
        trim_matching(seq!['"'] + t + seq!['"'], '"') == t,
{
    let q = seq!['"'] + t + seq!['"'];
    assert(q[0] == '"');
    assert(q.drop_first() =~= t + seq!['"']);
    let u = t + seq!['"'];
    assert(trim_matching(q, '"') == trim_matching(u, '"'));
    if t.len() == 0 {
        assert(u =~= seq!['"']);
        assert(u[0] == '"');
        assert(u.drop_first() =~= Seq::<char>::empty());
        assert(trim_matching(u.drop_first(), '"') == u.drop_first());
    } else {
        assert(u[0] == t[0]);
        assert(u.last() == '"');
        assert(u.drop_last() =~= t);
        assert(trim_matching(t, '"') == t);
    }
}

/// The note text with a title, a creation time and a body that a note is
/// saved as.
pub open spec fn saved_note(title: Seq<char>, created: Seq<char>, body: Seq<char>) -> Seq<char> {
    "---\ntitle: \""@ + title + "\"\ncreated: "@ + created + "\n---\n\n"@ + body
}

/// The header lines of a saved note: the dashes, the title line, the
/// creation line, the dashes and an empty line.
pub open spec fn saved_header(title: Seq<char>, created: Seq<char>) -> Seq<Seq<char>> {
    seq!["---"@, "title: "@ + seq!['"'] + title + seq!['"'], "created: "@ + created, "---"@, Seq::<char>::empty()]
}

proof fn lemma_saved_note_lines(title: Seq<char>, created: Seq<char>, body: Seq<char>)
    requires
        lacks(title, '\n'),
        lacks(created, '\n'),
        created.len() == 0 || created.last() != '\r',
    ensures
        lines_of(saved_note(title, created, body)) == saved_header(title, created) + lines_of(body),
{
    reveal_strlit("---\ntitle: \"");
    reveal_strlit("\"\ncreated: ");
    reveal_strlit("\n---\n\n");
    reveal_strlit("---");
    reveal_strlit("title: ");
    reveal_strlit("created: ");
    let h = saved_header(title, created);
    let l1 = h[1];
    let l2 = h[2];
    assert forall|i: int| 0 <= i < h.len() implies lacks(#[trigger] h[i], '\n') by {
        if i == 1 {
            assert forall|j: int| 0 <= j < l1.len() implies l1[j] != '\n' by {
                if 8 <= j < 8 + title.len() {
                    assert(l1[j] == title[j - 8]);
                }
            }
        }
        if i == 2 {
            assert forall|j: int| 0 <= j < l2.len() implies l2[j] != '\n' by {
                if j >= 9 {
                    assert(l2[j] == created[j - 9]);
                }
            }
        }
    }
    assert forall|i: int| 0 <= i < h.len() implies strip_cr(#[trigger] h[i]) == h[i] by {
        if i == 2 && created.len() > 0 {
            assert(l2.last() == created.last());
        }
    }
    assert(join_lines(h) =~= "---\ntitle: \""@ + title + "\"\ncreated: "@ + created + "\n---\n\n"@) by {
        reveal_with_fuel(join_lines, 6);
    }
    assert(saved_note(title, created, body) =~= join_lines(h) + body);
    lemma_lines_of_join_then(h, body);
}

proof fn lemma_saved_header_fields(title: Seq<char>, created: Seq<char>, fallback: Seq<char>)
    requires
        title.len() == 0 || (title[0] != '"' && title.last() != '"'),
    ensures
        frontmatter_fields(saved_header(title, created).subrange(1, 3), fallback) == (title, Some(created)),
{
    reveal_strlit("title: ");
    reveal_strlit("created: ");
    let h = saved_header(title, created);
    let l1 = h[1];
    let l2 = h[2];
    let fm = h.subrange(1, 3);
    assert(fm =~= seq![l1, l2]);
    assert(fm.drop_last() =~= seq![l1]);
    assert(seq![l1].drop_last() =~= Seq::<Seq<char>>::empty());
    assert(has_prefix(l1, "title: "@)) by {
        assert(l1.subrange(0, 7) =~= "title: "@);
    }
    assert(l1.subrange(7, l1.len() as int) =~= seq!['"'] + title + seq!['"']);
    lemma_trim_quotes(title);
    assert(!has_prefix(l2, "title: "@)) by {
        assert(l2[0] != "title: "@[0]);
    }
    assert(has_prefix(l2, "created: "@)) by {
        assert(l2.subrange(0, 9) =~= "created: "@);
    }
    assert(l2.subrange(9, l2.len() as int) =~= created);
    assert(frontmatter_fields(seq![l1], fallback) == (title, None::<Seq<char>>)) by {
        assert(frontmatter_fields(Seq::<Seq<char>>::empty(), fallback) == (fallback, None::<Seq<char>>));
        assert(seq![l1].last() == l1);
    }
    assert(fm.last() == l2);
}

proof fn lemma_saved_body(body: Seq<char>)
    requires
        lacks(body, '\r'),
        body.len() == 0 || (!is_white_space(body[0]) && body.last() != '\n'),
    ensures
        trim_start_spec(joined(seq![Seq::<char>::empty()] + lines_of(body))) == body,
{
    let tail = seq![Seq::<char>::empty()] + lines_of(body);
    lemma_joined_lines_of(body);
    if body.len() == 0 {
        assert(lines_of(body) =~= Seq::<Seq<char>>::empty());
        assert(tail =~= seq![Seq::<char>::empty()]);
        assert(trim_start_spec(joined(tail)) =~= body);
    } else {
        assert(lines_of(body).len() > 0);
        lemma_joined_front(Seq::<char>::empty(), lines_of(body));
        let j = joined(tail);
        assert(j =~= seq!['\n'] + body);
        assert(j.drop_first() =~= body);
        assert(is_white_space(j[0]));
        assert(crate::text::trim_start_index(body) == 0);
        assert(crate::text::trim_start_index(j) == 1);
        assert(trim_start_spec(j) =~= body);
    }
}

/// A saved note reads back as its title, creation time and body, when the
/// title and time hold no line break, the title neither starts nor ends
/// with `"`, the time does not end in `'\r'`, and the body holds no `'\r'`,
/// starts with no white space and does not end in `'\n'`.
pub proof fn lemma_note_roundtrip(title: Seq<char>, created: Seq<char>, body: Seq<char>, fallback: Seq<char>)
    requires
        lacks(title, '\n'),
        lacks(created, '\n'),
        title.len() == 0 || (title[0] != '"' && title.last() != '"'),
        created.len() == 0 || created.last() != '\r',
        lacks(body, '\r'),
        body.len() == 0 || (!is_white_space(body[0]) && body.last() != '\n'),
    ensures
        note_parts(saved_note(title, created, body), fallback) == (title, Some(created), body),
{
    reveal_strlit("---");
    let h = saved_header(title, created);
    lemma_saved_note_lines(title, created, body);
    lemma_saved_header_fields(title, created, fallback);
    lemma_saved_body(body);
    let ls = lines_of(saved_note(title, created, body));
    assert(ls[0] == h[0] && ls[1] == h[1] && ls[2] == h[2] && ls[3] == h[3]);
    assert(h[1] != "---"@) by {
        reveal_strlit("title: ");
        assert(h[1][0] == 't');
    }
    assert(h[2] != "---"@) by {
        reveal_strlit("created: ");
        assert(h[2][0] == 'c');
    }
    assert(closing_line(ls) == Some(3int)) by {
        let k = choose|i: int| 1 <= i < ls.len() && ls[i] == "---"@ && forall|j: int| 1 <= j < i ==> ls[j] != "---"@;
        if k < 3 {
            assert(ls[k] != "---"@);
        } else if k > 3 {
            assert(ls[3] == "---"@);
        }
    }
    assert(ls.subrange(1, 3) =~= h.subrange(1, 3));
    assert(ls.subrange(4, ls.len() as int) =~= seq![Seq::<char>::empty()] + lines_of(body));
}

fn is_dashes_line(l: &Vec<char>) -> (r: bool)
    ensures
        r == (l@ == "---"@),
{
    proof {
        reveal_strlit("---");
    }
    let d = chars_of("---");
    crate::text::chars_eq(l, &d)
}

fn frontmatter_of(lines: &Vec<Vec<char>>, end: usize, fallback_title: &str) -> (r: (String, Option<String>))
    requires
        1 <= end < lines@.len(),
    ensures
        (r.0@, match r.1 {
            Some(c) => Some(c@),
            None => None,
        }) == frontmatter_fields(lines@.map_values(|l: Vec<char>| l@).subrange(1, end as int), fallback_title@),
{
    proof {
        reveal_strlit("title: ");
        reveal_strlit("created: ");
    }
    let ghost ls = lines@.map_values(|l: Vec<char>| l@);
    let mut title = owned(fallback_title);
    let mut created: Option<String> = None;
    let title_prefix = chars_of("title: ");
    let created_prefix = chars_of("created: ");
    let mut i: usize = 1;
    assert(ls.subrange(1, 1) =~= Seq::<Seq<char>>::empty());
    while i < end
        invariant
            1 <= i <= end < lines@.len(),
            ls == lines@.map_values(|l: Vec<char>| l@),
            title_prefix@ == "title: "@,
            created_prefix@ == "created: "@,
            title_prefix@.len() == 7,
            created_prefix@.len() == 9,
            (title@, match created {
                Some(c) => Some(c@),
                None => None,
            }) == frontmatter_fields(ls.subrange(1, i as int), fallback_title@),
        decreases end - i,
    {
        let line = &lines[i];
        assert(ls.subrange(1, i + 1).drop_last() =~= ls.subrange(1, i as int));
        assert(ls.subrange(1, i + 1).last() == line@);
        if starts_with(line, &title_prefix) {
            let rest = slice_chars(line, 7, line.len());
            let t = trim_char(&rest, '"');
            title = string_of(&t);
        } else if starts_with(line, &created_prefix) {
            let rest = slice_chars(line, 9, line.len());
            created = Some(string_of(&rest));
        }
        i = i + 1;
    }
    (title, created)
}

fn join_from(lines: &Vec<Vec<char>>, from: usize) -> (r: Vec<char>)
    requires
        from <= lines@.len(),
    ensures
        r@ == joined(lines@.map_values(|l: Vec<char>| l@).subrange(from as int, lines@.len() as int)),
{
    let ghost ls = lines@.map_values(|l: Vec<char>| l@);
    let ghost tail = ls.subrange(from as int, ls.len() as int);
    let mut body: Vec<char> = Vec::new();
    let mut k: usize = from;
    assert(tail.subrange(0, 0) =~= Seq::<Seq<char>>::empty());
    while k < lines.len()
        invariant
            from <= k <= lines@.len(),
            ls == lines@.map_values(|l: Vec<char>| l@),
            tail == ls.subrange(from as int, ls.len() as int),
            body@ == joined(tail.subrange(0, k - from)),
        decreases lines@.len() - k,
    {
        let ghost before = body@;
        assert(tail.subrange(0, k - from + 1).drop_last() =~= tail.subrange(0, k - from));
        assert(tail.subrange(0, k - from + 1).last() == lines@[k as int]@);
        if k > from {
            body.push('\n');
        }
        let joined_line = concat_chars(&body, &lines[k]);
        body = joined_line;
        proof {
            if k == from {
                assert(tail.subrange(0, 1) =~= seq![lines@[k as int]@]);
                assert(body@ =~= lines@[k as int]@);
            } else {
                assert(body@ =~= before + seq!['\n'] + lines@[k as int]@);
            }
        }
        k = k + 1;
    }
    assert(tail.subrange(0, k - from) =~= tail);
    body
}

/// Split a note into its title, creation time and body.
pub fn parse_note_frontmatter(content: &str, fallback_title: &str) -> (r: (String, Option<String>, String))
    ensures
        (r.0@, match r.1 {
            Some(c) => Some(c@),
            None => None,
        }, r.2@) == note_parts(content@, fallback_title@),
{
    let cs = chars_of(content);
    let lines = split_lines(&cs);
    let ghost ls = lines@.map_values(|l: Vec<char>| l@);
    assert(ls == lines_of(content@));
    if lines.len() == 0 || !is_dashes_line(&lines[0]) {
        return (owned(fallback_title), None, owned(content));
    }
    let mut end: usize = 1;
    while end < lines.len() && !is_dashes_line(&lines[end])
        invariant
            1 <= end <= lines@.len(),
            ls == lines@.map_values(|l: Vec<char>| l@),
            forall|j: int| 1 <= j < end ==> ls[j] != "---"@,
        decreases lines@.len() - end,
    {
        end = end + 1;
    }
    if end == lines.len() {
        return (owned(fallback_title), None, owned(content));
    }
    proof {
        assert(ls[end as int] == "---"@);
        assert(1 <= end < ls.len() && ls[end as int] == "---"@ && forall|j: int| 1 <= j < end ==> ls[j] != "---"@);
        let k = choose|i: int| 1 <= i < ls.len() && ls[i] == "---"@ && forall|j: int| 1 <= j < i ==> ls[j] != "---"@;
        if k < end {
            assert(ls[k] != "---"@);
        } else if k > end {
            assert(ls[end as int] == "---"@);
        }
        assert(closing_line(ls) == Some(end as int));
    }
    let (title, created) = frontmatter_of(&lines, end, fallback_title);
    let body = join_from(&lines, end + 1);
    let start = trim_start_chars(&body);
    (title, created, string_of(&start))
}

fn trim_start_chars(s: &Vec<char>) -> (r: Vec<char>)
    ensures
        r@ == trim_start_spec(s@),
{
    let mut i: usize = 0;
    while i < s.len() && crate::text::is_whitespace(s[i])
        invariant
            i <= s@.len(),
            forall|j: int| 0 <= j < i ==> crate::text::is_white_space(#[trigger] s@[j]),
        decreases s@.len() - i,
    {
        i = i + 1;
    }
    proof {
        crate::text::lemma_trim_start_index_is_first(s@, i as int);
    }
    slice_chars(s, i, s.len())
}

} // verus!
