use vstd::prelude::*;

use crate::lexer::{run_len, lemma_run_len_bounds, lemma_run_len_eq};

verus! {

/// Whether the characters of `a` and `b` agree.
pub fn str_eq(a: &str, b: &str) -> (r: bool)
    ensures
        r == (a@ == b@),
{
    let la = a.unicode_len();
    let lb = b.unicode_len();
    if la != lb {
        return false;
    }
    let mut i: usize = 0;
    while i < la
        invariant
            i <= la,
            la == a@.len(),
            la == b@.len(),
            forall|k: int| 0 <= k < i ==> a@[k] == b@[k],
        decreases la - i,
    {
        if a.get_char(i) != b.get_char(i) {
            return false;
        }
        i += 1;
    }
    proof {
        assert(a@ =~= b@);
    }
    true
}

/// Whether `nee` occurs in `hay` starting at position `at`.
pub open spec fn matches_at(hay: Seq<char>, nee: Seq<char>, at: int) -> bool {
    &&& 0 <= at
    &&& at + nee.len() <= hay.len()
    &&& hay.subrange(at, at + nee.len()) == nee
}

/// Whether `nee` occurs somewhere in `hay` as a contiguous substring.
pub open spec fn spec_contains(hay: Seq<char>, nee: Seq<char>) -> bool {
    exists|at: int| matches_at(hay, nee, at)
}

fn check_match_at(hay: &str, nee: &str, at: usize, hay_len: usize, nee_len: usize) -> (r: bool)
    requires
        hay_len == hay@.len(),
        nee_len == nee@.len(),
        at + nee_len <= hay_len,
    ensures
        r == matches_at(hay@, nee@, at as int),
{
    let mut k: usize = 0;
    while k < nee_len
        invariant
            k <= nee_len,
            hay_len == hay@.len(),
            nee_len == nee@.len(),
            at + nee_len <= hay_len,
            forall|j: int| 0 <= j < k ==> hay@[at + j] == nee@[j],
        decreases nee_len - k,
    {
        if hay.get_char(at + k) != nee.get_char(k) {
            proof {
                assert(hay@.subrange(at as int, at + nee@.len())[k as int] != nee@[k as int]);
            }
            return false;
        }
        k += 1;
    }
    proof {
        assert(hay@.subrange(at as int, at + nee@.len()) =~= nee@);
    }
    true
}

/// Whether `nee` occurs in `hay` as a contiguous substring.
pub fn str_contains(hay: &str, nee: &str) -> (r: bool)
    ensures
        r == spec_contains(hay@, nee@),
{
    let hay_len = hay.unicode_len();
    let nee_len = nee.unicode_len();
    if nee_len > hay_len {
        return false;
    }
    if nee_len == 0 {
        proof {
            assert(hay@.subrange(0, 0) =~= nee@);
            assert(matches_at(hay@, nee@, 0));
        }
        return true;
    }
    let mut at: usize = 0;
    while at <= hay_len - nee_len
        invariant
            hay_len == hay@.len(),
            nee_len == nee@.len(),
            1 <= nee_len <= hay_len,
            at <= hay_len,
            forall|j: int| 0 <= j < at ==> !matches_at(hay@, nee@, j),
        decreases hay_len - at,
    {
        if check_match_at(hay, nee, at, hay_len, nee_len) {
            return true;
        }
        at += 1;
    }
    false
}

/// Whether a character counts as blank when lines are trimmed for output.
pub open spec fn is_blank_char(c: char) -> bool {
    c == ' ' || c == '\t' || c == '\r' || c == '\n'
}

fn check_blank(c: char) -> (b: bool)
    ensures
        b == is_blank_char(c),
{
    c == ' ' || c == '\t' || c == '\r' || c == '\n'
}

/// `s` with leading and trailing blanks removed.
pub open spec fn trim_of(s: Seq<char>) -> Seq<char>
    decreases s.len(),
{
    if s.len() == 0 {
        s
    } else if is_blank_char(s[0]) {
        trim_of(s.subrange(1, s.len() as int))
    } else if is_blank_char(s[s.len() - 1]) {
        trim_of(s.subrange(0, s.len() - 1))
    } else {
        s
    }
}

/// A copy of `s` with leading and trailing blanks removed.
pub fn trim_str(s: &str) -> (r: String)
    ensures
        r@ == trim_of(s@),
{
    let len = s.unicode_len();
    let mut lo: usize = 0;
    let mut hi: usize = len;
    proof {
        assert(s@.subrange(0, len as int) =~= s@);
    }
    while lo < hi && check_blank(s.get_char(lo))
        invariant
            lo <= hi <= len,
            len == s@.len(),
            trim_of(s@) == trim_of(s@.subrange(lo as int, hi as int)),
            forall|k: int| 0 <= k < lo ==> is_blank_char(s@[k]),
            forall|k: int| hi <= k < len ==> is_blank_char(s@[k]),
        decreases hi - lo,
    {
        proof {
            assert(s@.subrange(lo as int, hi as int).subrange(1, (hi - lo) as int) =~= s@.subrange(
                lo + 1,
                hi as int,
            ));
        }
        lo += 1;
    }
    while lo < hi && check_blank(s.get_char(hi - 1))
        invariant
            lo <= hi <= len,
            len == s@.len(),
            trim_of(s@) == trim_of(s@.subrange(lo as int, hi as int)),
            lo < hi ==> !is_blank_char(s@[lo as int]),
        decreases hi - lo,
    {
        proof {
            let sub = s@.subrange(lo as int, hi as int);
            assert(!is_blank_char(sub[0]));
            assert(sub.subrange(0, sub.len() - 1) =~= s@.subrange(lo as int, hi - 1));
        }
        hi -= 1;
    }
    let r = s.substring_char(lo, hi).to_owned();
    proof {
        let sub = s@.subrange(lo as int, hi as int);
        if sub.len() > 0 {
            assert(!is_blank_char(sub[0]));
            assert(!is_blank_char(sub[sub.len() - 1]));
        }
        assert(trim_of(sub) == sub);
    }
    r
}

/// The decimal digits of `n`, most significant first.
pub open spec fn dec_digits(n: int) -> Seq<char>
    decreases n,
{
    if n < 10 {
        seq![digit_char(n)]
    } else {
        dec_digits(n / 10).push(digit_char(n % 10))
    }
}

/// The character for one decimal digit.
pub open spec fn digit_char(d: int) -> char {
    ((48 + d) as u8) as char
}

fn digit_of(d: usize) -> (c: char)
    requires
        d < 10,
    ensures
        c == digit_char(d as int),
{
    (48 + d as u8) as char
}

/// The decimal rendering of `n`.
pub fn usize_to_string(n: usize) -> (r: String)
    ensures
        r@ == dec_digits(n as int),
{
    let mut out = String::new();
    push_digits(&mut out, n);
    out
}

fn push_digits(out: &mut String, n: usize)
    ensures
        final(out)@ == old(out)@ + dec_digits(n as int),
    decreases n,
{
    if n < 10 {
        let c = digit_of(n);
        let s = one_char_string(c);
        out.append(s.as_str());
        proof {
            assert(old(out)@ + seq![digit_char(n as int)] =~= final(out)@);
        }
    } else {
        push_digits(out, n / 10);
        let c = digit_of(n % 10);
        let s = one_char_string(c);
        out.append(s.as_str());
        proof {
            assert(old(out)@ + dec_digits(n as int) =~= final(out)@);
        }
    }
}

/// A one-character string built from the digits alphabet.
fn one_char_string(c: char) -> (r: String)
    requires
        48 <= (c as u32) && (c as u32) < 58,
    ensures
        r@ == (seq![c]),
{
    let digits = "0123456789";
    proof {
        reveal_strlit("0123456789");
    }
    let idx = (c as u32 as usize) - 48;
    let r = digits.substring_char(idx, idx + 1).to_owned();
    proof {
        assert(r@ =~= seq![c]);
    }
    r
}

// ---- splitting and joining paths and lines ----

/// The scan pattern of a split: anything but the separator.
pub open spec fn sep_pred(sep: char) -> spec_fn(char) -> bool {
    |c: char| c != sep
}

/// `s` split on `sep`; always at least one piece.
pub open spec fn split_seq(s: Seq<char>, sep: char) -> Seq<Seq<char>>
    decreases s.len(),
    via split_seq_dec
{
    let k = run_len(s, 0, sep_pred(sep));
    if k >= s.len() {
        seq![s]
    } else {
        seq![s.take(k)] + split_seq(s.skip(k + 1), sep)
    }
}

#[via_fn]
proof fn split_seq_dec(s: Seq<char>, sep: char) {
    lemma_run_len_bounds(s, 0, sep_pred(sep));
}

/// Split a string on a separator character.
pub fn split_str(s: &str, sep: char) -> (r: Vec<String>)
    ensures
        Seq::new(r@.len(), |i: int| r@[i]@) == split_seq(s@, sep),
        r@.len() >= 1,
    decreases s@.len(),
{
    let len = s.unicode_len();
    let mut j: usize = 0;
    while j < len && s.get_char(j) != sep
        invariant
            j <= len,
            len == s@.len(),
            forall|k: int| 0 <= k < j ==> sep_pred(sep)(s@[k]),
        decreases len - j,
    {
        j += 1;
    }
    proof {
        lemma_run_len_eq(s@, 0, j as int, sep_pred(sep));
    }
    if j >= len {
        let mut out: Vec<String> = Vec::new();
        out.push(s.to_owned());
        proof {
            assert(Seq::new(out@.len(), |i: int| out@[i]@) =~= split_seq(s@, sep));
        }
        out
    } else {
        let head = s.substring_char(0, j).to_owned();
        let tail = s.substring_char(j + 1, len);
        let mut rest = split_str(tail, sep);
        let ghost restv = Seq::new(rest@.len(), |i: int| rest@[i]@);
        let ghost headv = head@;
        rest.insert(0, head);
        proof {
            assert(s@.take(j as int) == headv);
            assert(s@.skip(j + 1) == tail@);
            assert(Seq::new(rest@.len(), |i: int| rest@[i]@) =~= seq![headv] + restv);
            assert(seq![headv] + restv =~= split_seq(s@, sep));
        }
        rest
    }
}

/// `with` without its leading `./` prefixes.
pub open spec fn strip_dot_slash(w: Seq<char>) -> Seq<char>
    decreases w.len(),
{
    if w.len() >= 2 && w[0] == '.' && w[1] == '/' {
        strip_dot_slash(w.skip(2))
    } else {
        w
    }
}

/// Fold one path component onto a normalized stack: `.` and inner empty
/// components vanish, `..` pops, anything else is kept.
pub open spec fn norm_step(pre: Seq<Seq<char>>, c: Seq<char>) -> Seq<Seq<char>> {
    if c == ("."@) || (c == Seq::<char>::empty() && pre.len() > 0) {
        pre
    } else if c == (".."@) {
        if pre.len() > 0 && pre.last() != Seq::<char>::empty() && pre.last() != (".."@) {
            pre.drop_last()
        } else {
            pre
        }
    } else {
        pre.push(c)
    }
}

/// A component list with `.` and `..` resolved.
pub open spec fn norm_comps(cs: Seq<Seq<char>>) -> Seq<Seq<char>>
    decreases cs.len(),
{
    if cs.len() == 0 {
        Seq::empty()
    } else {
        norm_step(norm_comps(cs.drop_last()), cs.last())
    }
}

/// Components joined with `/` between them.
pub open spec fn join_comps(cs: Seq<Seq<char>>) -> Seq<char>
    decreases cs.len(),
{
    if cs.len() == 0 {
        Seq::empty()
    } else if cs.len() == 1 {
        cs[0]
    } else {
        join_comps(cs.drop_last()) + seq!['/'] + cs.last()
    }
}

/// Whether the final path component carries an extension: a `.` somewhere
/// after its first character. A leading dot alone marks a hidden name.
pub open spec fn has_extension(w: Seq<char>) -> bool {
    exists|k: int| 1 <= k < split_seq(w, '/').last().len() && split_seq(w, '/').last()[k] == '.'
}

/// What `join_path` returns: the required path, stripped of its `./` prefix,
/// given a `.js` extension when it has none, resolved against the directory
/// of `base`, with `.` and `..` folded away.
pub open spec fn spec_join_path(base: Seq<char>, with: Seq<char>) -> Seq<char> {
    let w = strip_dot_slash(with);
    let w2 = if has_extension(w) {
        w
    } else {
        w + (".js"@)
    };
    join_comps(norm_comps(split_seq(base, '/').drop_last() + split_seq(w2, '/')))
}

/// Resolve a required relative path against the file that requires it.
pub fn join_path(base: &str, with: &str) -> (r: Option<String>)
    ensures
        r matches Some(p) && p@ == spec_join_path(base@, with@),
{
    let mut w: String = with.to_owned();
    loop
        invariant
            strip_dot_slash(with@) == strip_dot_slash(w@),
        ensures
            strip_dot_slash(with@) == w@,
        decreases w@.len(),
    {
        let wl = w.as_str().unicode_len();
        if wl >= 2 && w.as_str().get_char(0) == '.' && w.as_str().get_char(1) == '/' {
            let w3 = w.as_str().substring_char(2, wl).to_owned();
            proof {
                assert(w3@ == w@.skip(2));
            }
            w = w3;
        } else {
            break;
        }
    }
    let wparts = split_str(w.as_str(), '/');
    let last_part = &wparts[wparts.len() - 1];
    proof {
        reveal_strlit(".js");
    }
    let ghost ws = w@;
    proof {
        assert(last_part@ == split_seq(ws, '/').last());
    }
    if !dot_after_first(last_part.as_str()) {
        let w4 = w.concat(".js");
        w = w4;
        proof {
            assert(!has_extension(ws));
            assert(w@ == ws + (".js"@));
        }
    } else {
        proof {
            assert(has_extension(ws));
        }
    }
    let ghost w2v = w@;
    proof {
        assert(w2v == (if has_extension(ws) { ws } else { ws + (".js"@) }));
    }
    let bparts = split_str(base, '/');
    let parts2 = split_str(w.as_str(), '/');
    let ghost bseq = Seq::new(bparts@.len(), |i: int| bparts@[i]@);
    let ghost wseq = Seq::new(parts2@.len(), |i: int| parts2@[i]@);
    let mut stack: Vec<String> = Vec::new();
    let mut k: usize = 0;
    #[verifier::loop_isolation(false)]
    while k < bparts.len() - 1
        invariant
            k <= bparts@.len() - 1,
            Seq::new(stack@.len(), |i: int| stack@[i]@) == norm_comps(
                bseq.drop_last().take(k as int),
            ),
        decreases bparts@.len() - 1 - k,
    {
        proof {
            assert(bseq.drop_last().take(k as int + 1).drop_last() =~= bseq.drop_last().take(
                k as int,
            ));
            assert(bseq.drop_last().take(k as int + 1).last() == bseq[k as int]);
        }
        norm_push(&mut stack, &bparts[k]);
        k += 1;
    }
    proof {
        assert(bseq.drop_last().take(bseq.len() - 1) =~= bseq.drop_last());
    }
    let mut k2: usize = 0;
    #[verifier::loop_isolation(false)]
    while k2 < parts2.len()
        invariant
            k2 <= parts2@.len(),
            Seq::new(stack@.len(), |i: int| stack@[i]@) == norm_comps(
                bseq.drop_last() + wseq.take(k2 as int),
            ),
        decreases parts2@.len() - k2,
    {
        proof {
            assert((bseq.drop_last() + wseq.take(k2 as int + 1)).drop_last() =~= bseq.drop_last()
                + wseq.take(k2 as int));
            assert((bseq.drop_last() + wseq.take(k2 as int + 1)).last() == wseq[k2 as int]);
            assert(bseq.drop_last() + wseq.take(wseq.len() as int) =~= bseq.drop_last() + wseq);
        }
        norm_push(&mut stack, &parts2[k2]);
        k2 += 1;
    }
    proof {
        assert(wseq.take(wseq.len() as int) =~= wseq);
        assert(bseq.drop_last() + wseq.take(wseq.len() as int) =~= bseq.drop_last() + wseq);
    }
    let joined = join_strings(&stack);
    proof {
        assert(bseq == split_seq(base@, '/'));
        assert(wseq == split_seq(w2v, '/'));
        assert(joined@ == join_comps(norm_comps(bseq.drop_last() + wseq)));
        assert(joined@ == spec_join_path(base@, with@));
    }
    Some(joined)
}

/// Whether `s` holds a `.` anywhere after its first character.
fn dot_after_first(s: &str) -> (r: bool)
    ensures
        r == exists|k: int| 1 <= k < s@.len() && s@[k] == '.',
{
    let len = s.unicode_len();
    let mut k: usize = 1;
    #[verifier::loop_isolation(false)]
    while k < len
        invariant
            1 <= k,
            len == s@.len(),
            forall|j: int| 1 <= j < k ==> s@[j] != '.',
        decreases len - k,
    {
        if s.get_char(k) == '.' {
            return true;
        }
        k += 1;
    }
    false
}

/// Fold one component onto the normalization stack.
fn norm_push(stack: &mut Vec<String>, c: &String)
    ensures
        Seq::new(final(stack)@.len(), |i: int| final(stack)@[i]@) == norm_step(
            Seq::new(old(stack)@.len(), |i: int| old(stack)@[i]@),
            c@,
        ),
{
    let ghost pre = Seq::new(stack@.len(), |i: int| stack@[i]@);
    proof {
        reveal_strlit(".");
        reveal_strlit("..");
        reveal_strlit("");
        assert((""@) =~= Seq::<char>::empty());
    }
    if str_eq(c.as_str(), ".") || (str_eq(c.as_str(), "") && stack.len() > 0) {
        proof {
            assert(Seq::new(stack@.len(), |i: int| stack@[i]@) =~= norm_step(pre, c@));
        }
        return ;
    }
    if str_eq(c.as_str(), "..") {
        if stack.len() > 0 {
            let top_empty = str_eq(stack[stack.len() - 1].as_str(), "");
            let top_dots = str_eq(stack[stack.len() - 1].as_str(), "..");
            if !top_empty && !top_dots {
                let _ = stack.pop();
                proof {
                    assert(Seq::new(stack@.len(), |i: int| stack@[i]@) =~= pre.drop_last());
                    assert(Seq::new(stack@.len(), |i: int| stack@[i]@) =~= norm_step(pre, c@));
                }
                return ;
            }
        }
        proof {
            assert(Seq::new(stack@.len(), |i: int| stack@[i]@) =~= norm_step(pre, c@));
        }
        return ;
    }
    stack.push(c.clone());
    proof {
        assert(Seq::new(stack@.len(), |i: int| stack@[i]@) =~= pre.push(c@));
        assert(Seq::new(stack@.len(), |i: int| stack@[i]@) =~= norm_step(pre, c@));
    }
}

/// Join components with `/` between them.
fn join_strings(parts: &Vec<String>) -> (r: String)
    ensures
        r@ == join_comps(Seq::new(parts@.len(), |i: int| parts@[i]@)),
{
    let ghost ps = Seq::new(parts@.len(), |i: int| parts@[i]@);
    let mut out = String::new();
    let mut k: usize = 0;
    proof {
        reveal_strlit("/");
        assert(out@ =~= join_comps(ps.take(0)));
    }
    #[verifier::loop_isolation(false)]
    while k < parts.len()
        invariant
            k <= parts@.len(),
            out@ == join_comps(ps.take(k as int)),
        decreases parts@.len() - k,
    {
        proof {
            assert(ps.take(k as int + 1).drop_last() =~= ps.take(k as int));
            assert(ps.take(k as int + 1).last() == ps[k as int]);
        }
        if k > 0 {
            out.append("/");
            proof {
                assert("/"@ =~= seq!['/']);
            }
        }
        out.append(parts[k].as_str());
        k += 1;
    }
    proof {
        assert(ps.take(ps.len() as int) =~= ps);
    }
    out
}

} // verus!
