//! Turning a free-text note title into a filesystem-safe file name: the
//! reserved characters become underscores, leading and trailing whitespace
//! and dots are trimmed, and an empty result falls back to a fixed
//! placeholder name.

use vstd::prelude::*;

verus! {

/// The characters that file systems reserve.
pub open spec fn is_forbidden(c: char) -> bool {
    c == '<' || c == '>' || c == ':' || c == '"' || c == '/' || c == '\\' || c == '|' || c == '?'
        || c == '*'
}

/// The characters trimmed from either end: ASCII whitespace and dots.
pub open spec fn is_trimmable(c: char) -> bool {
    c == ' ' || c == '\t' || c == '\n' || c == '\r' || c == '.'
}

pub open spec fn replace_forbidden(s: Seq<char>) -> Seq<char> {
    s.map_values(|c: char| if is_forbidden(c) { '_' } else { c })
}

pub open spec fn trim_front(s: Seq<char>) -> Seq<char>
    decreases s.len(),
{
    if s.len() > 0 && is_trimmable(s[0]) {
        trim_front(s.drop_first())
    } else {
        s
    }
}

pub open spec fn trim_back(s: Seq<char>) -> Seq<char>
    decreases s.len(),
{
    if s.len() > 0 && is_trimmable(s.last()) {
        trim_back(s.drop_last())
    } else {
        s
    }
}

/// The fixed placeholder used when nothing of the title survives.
pub open spec fn placeholder_chars() -> Seq<char> {
    seq!['u', 'n', 't', 'i', 't', 'l', 'e', 'd']
}

/// What sanitizing a title means: replace the reserved characters, trim both
/// ends, and fall back to the placeholder when the rest is empty.
pub open spec fn sanitize_spec(s: Seq<char>) -> Seq<char> {
    let t = trim_back(trim_front(replace_forbidden(s)));
    if t.len() == 0 {
        placeholder_chars()
    } else {
        t
    }
}

proof fn lemma_trim_front_skip(s: Seq<char>, k: int)
    requires
        0 <= k <= s.len(),
        forall|m: int| 0 <= m < k ==> is_trimmable(#[trigger] s[m]),
    ensures
        trim_front(s) == trim_front(s.subrange(k, s.len() as int)),
    decreases k,
{
    if k > 0 {
        assert(s.drop_first() =~= s.subrange(1, s.len() as int));
        lemma_trim_front_skip(s.drop_first(), k - 1);
        assert(s.drop_first().subrange(k - 1, s.drop_first().len() as int) =~= s.subrange(
            k,
            s.len() as int,
        ));
    } else {
        assert(s.subrange(0, s.len() as int) =~= s);
    }
}

/// Sanitize a note title into a filesystem-safe name.
pub fn sanitize_title(title: &str) -> (r: String)
    ensures
        r@ == sanitize_spec(title@),
{
    let cs = crate::text::str_chars(title);
    let mut rep: Vec<char> = Vec::new();
    let mut i: usize = 0;
    while i < cs.len()
        invariant
            i <= cs@.len(),
            rep@ == replace_forbidden(cs@.take(i as int)),
        decreases cs@.len() - i,
    {
        let c = cs[i];
        if c == '<' || c == '>' || c == ':' || c == '"' || c == '/' || c == '\\' || c == '|' || c
            == '?' || c == '*' {
            rep.push('_');
        } else {
            rep.push(c);
        }
        proof {
            assert(cs@.take(i + 1) =~= cs@.take(i as int).push(c));
            assert(replace_forbidden(cs@.take(i + 1)) =~= rep@);
        }
        i = i + 1;
    }
    proof {
        assert(cs@.take(cs@.len() as int) =~= cs@);
    }
    let ghost full = replace_forbidden(cs@);
    let n = rep.len();
    let mut start: usize = 0;
    loop
        invariant
            n == rep@.len(),
            rep@ == full,
            start <= n,
            forall|m: int| 0 <= m < start ==> is_trimmable(#[trigger] full[m]),
        ensures
            start <= n,
            forall|m: int| 0 <= m < start ==> is_trimmable(#[trigger] full[m]),
            start == n || !is_trimmable(full[start as int]),
        decreases n - start,
    {
        if start >= n {
            break ;
        }
        let c = rep[start];
        if !(c == ' ' || c == '\t' || c == '\n' || c == '\r' || c == '.') {
            break ;
        }
        start = start + 1;
    }
    proof {
        lemma_trim_front_skip(full, start as int);
        assert(trim_front(full.subrange(start as int, n as int)) == full.subrange(
            start as int,
            n as int,
        ));
    }
    let ghost fronted = full.subrange(start as int, n as int);
    let mut end: usize = n;
    loop
        invariant
            n == rep@.len(),
            rep@ == full,
            start <= end <= n,
            fronted == full.subrange(start as int, n as int),
            trim_back(fronted) == trim_back(full.subrange(start as int, end as int)),
        ensures
            start <= end <= n,
            trim_back(fronted) == trim_back(full.subrange(start as int, end as int)),
            end == start || !is_trimmable(full[end - 1]),
        decreases end,
    {
        if end <= start {
            break ;
        }
        let c = rep[end - 1];
        if !(c == ' ' || c == '\t' || c == '\n' || c == '\r' || c == '.') {
            break ;
        }
        proof {
            let cur = full.subrange(start as int, end as int);
            assert(cur.last() == full[end - 1]);
            assert(cur.drop_last() =~= full.subrange(start as int, end - 1));
        }
        end = end - 1;
    }
    proof {
        let cur = full.subrange(start as int, end as int);
        if end > start {
            assert(cur.last() == full[end - 1]);
            assert(!is_trimmable(cur.last()));
        }
        assert(trim_back(cur) == cur);
        assert(sanitize_spec(title@) == if cur.len() == 0 {
            placeholder_chars()
        } else {
            cur
        });
    }
    if start == end {
        let r = {
            proof {
                reveal_strlit("untitled");
                assert("untitled"@ =~= placeholder_chars());
            }
            let mut out = String::new();
            out.append("untitled");
            out
        };
        return r;
    }
    let mut out: Vec<char> = Vec::new();
    let mut k: usize = start;
    while k < end
        invariant
            n == rep@.len(),
            rep@ == full,
            start <= k <= end <= n,
            out@ == full.subrange(start as int, k as int),
        decreases end - k,
    {
        out.push(rep[k]);
        proof {
            assert(full.subrange(start as int, k + 1) =~= full.subrange(
                start as int,
                k as int,
            ).push(full[k as int]));
        }
        k = k + 1;
    }
    crate::text::chars_to_string(&out)
}

proof fn lemma_trim_front_is_suffix(s: Seq<char>)
    ensures
        exists|i: int| 0 <= i <= s.len() && trim_front(s) == s.subrange(i, s.len() as int),
    decreases s.len(),
{
    if s.len() > 0 && is_trimmable(s[0]) {
        lemma_trim_front_is_suffix(s.drop_first());
        let i = choose|i: int|
            0 <= i <= s.drop_first().len() && trim_front(s.drop_first()) == s.drop_first().subrange(
                i,
                s.drop_first().len() as int,
            );
        assert(s.drop_first().subrange(i, s.drop_first().len() as int) =~= s.subrange(
            i + 1,
            s.len() as int,
        ));
        assert(trim_front(s) == s.subrange(i + 1, s.len() as int));
    } else {
        assert(s.subrange(0, s.len() as int) =~= s);
    }
}

proof fn lemma_trim_back_is_prefix(s: Seq<char>)
    ensures
        exists|i: int| 0 <= i <= s.len() && trim_back(s) == s.subrange(0, i),
    decreases s.len(),
{
    if s.len() > 0 && is_trimmable(s.last()) {
        lemma_trim_back_is_prefix(s.drop_last());
        let i = choose|i: int|
            0 <= i <= s.drop_last().len() && trim_back(s.drop_last()) == s.drop_last().subrange(
                0,
                i,
            );
        assert(s.drop_last().subrange(0, i) =~= s.subrange(0, i));
        assert(trim_back(s) == s.subrange(0, i));
    } else {
        assert(s.subrange(0, s.len() as int) =~= s);
    }
}

/// A sanitized title is a usable file name: it is never empty and never
/// holds a reserved character.
pub proof fn lemma_sanitize_safe(s: Seq<char>)
    ensures
        sanitize_spec(s).len() > 0,
        forall|k: int| 0 <= k < sanitize_spec(s).len() ==> !is_forbidden(#[trigger] sanitize_spec(s)[k]),
{
    let rep = replace_forbidden(s);
    assert(forall|k: int| 0 <= k < rep.len() ==> !is_forbidden(#[trigger] rep[k]));
    let fronted = trim_front(rep);
    lemma_trim_front_is_suffix(rep);
    let i = choose|i: int| 0 <= i <= rep.len() && fronted == rep.subrange(i, rep.len() as int);
    assert(forall|k: int| 0 <= k < fronted.len() ==> !is_forbidden(#[trigger] fronted[k])) by {
        assert(forall|k: int|
            0 <= k < fronted.len() ==> #[trigger] fronted[k] == rep[i + k]);
    }
    let t = trim_back(fronted);
    lemma_trim_back_is_prefix(fronted);
    let j = choose|j: int| 0 <= j <= fronted.len() && t == fronted.subrange(0, j);
    assert(forall|k: int| 0 <= k < t.len() ==> !is_forbidden(#[trigger] t[k])) by {
        assert(forall|k: int| 0 <= k < t.len() ==> #[trigger] t[k] == fronted[k]);
    }
    if t.len() == 0 {
        assert(forall|k: int|
            0 <= k < placeholder_chars().len() ==> !is_forbidden(#[trigger] placeholder_chars()[k]));
    }
}

} // verus!
