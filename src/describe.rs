use vstd::prelude::*;
use vstd::string::*;
use crate::naming::{decimal, decimal_of, occurs_in};
use crate::state::{names_of, opt_view};

verus! {

/// The pieces of `s` between its newlines, left to right.
pub open spec fn segments(s: Seq<char>) -> Seq<Seq<char>>
    decreases s.len(),
{
    if s.len() == 0 {
        seq![Seq::empty()]
    } else {
        let r = segments(s.drop_last());
        if s.last() == '\n' {
            r.push(Seq::empty())
        } else {
            r.update(r.len() - 1, r.last().push(s.last()))
        }
    }
}

/// The lines of `s`: its segments, without the empty one after a final
/// newline.
pub open spec fn lines_of(s: Seq<char>) -> Seq<Seq<char>> {
    let g = segments(s);
    if g.last().len() == 0 {
        g.drop_last()
    } else {
        g
    }
}

/// The marker that separates a description's own text from the chain
/// listing.
pub open spec fn has_marker(line: Seq<char>) -> bool {
    occurs_in(line, seq!['-', '-', '-'])
}

/// The first `k` lines hold no marker, and line `k`, if any, holds one.
pub open spec fn cut_at(ls: Seq<Seq<char>>, k: int) -> bool {
    &&& 0 <= k <= ls.len()
    &&& forall|j: int| 0 <= j < k ==> !has_marker(#[trigger] ls[j])
    &&& k == ls.len() || has_marker(ls[k])
}

/// The number of lines that come before the first line with the marker.
pub open spec fn marker_cut(ls: Seq<Seq<char>>) -> int {
    choose|k: int| cut_at(ls, k)
}

/// The lines joined with newlines between them.
pub open spec fn join_lines(ls: Seq<Seq<char>>) -> Seq<char>
    decreases ls.len(),
{
    if ls.len() == 0 {
        Seq::empty()
    } else if ls.len() == 1 {
        ls[0]
    } else {
        join_lines(ls.drop_last()) + seq!['\n'] + ls.last()
    }
}

/// The text of a description that is kept when it is written again: the
/// lines before the first one with the marker.
pub open spec fn kept_text(body: Seq<char>) -> Seq<char> {
    let ls = lines_of(body);
    join_lines(ls.subrange(0, marker_cut(ls)))
}

/// The listing line of pull request `n`, annotated when it is `this`.
pub open spec fn listing_entry(n: u64, this: u64) -> Seq<char> {
    "- #"@ + decimal_of(n as nat) + (if n == this {
        " (This PR)"@
    } else {
        Seq::empty()
    }) + "\n"@
}

/// The listing of a chain, top of the stack first.
pub open spec fn chain_listing(chain: Seq<u64>, this: u64) -> Seq<char>
    decreases chain.len(),
{
    if chain.len() == 0 {
        Seq::empty()
    } else {
        chain_listing(chain.drop_first(), this) + listing_entry(chain[0], this)
    }
}

/// What closes every description.
pub open spec fn footer() -> Seq<char> {
    "\n**Created by [gstack](https://github.com/Bendzae/gstack)**"@
}

/// The section that a description ends with: the marker, the listing of the
/// chain, and the footer.
pub open spec fn chain_section(chain: Seq<u64>, this: u64) -> Seq<char> {
    "\n---\n"@ + chain_listing(chain, this) + footer()
}

/// The description of pull request `this` of a chain, from its old body.
pub open spec fn description_of(chain: Seq<u64>, this: u64, body: Option<Seq<char>>) -> Seq<char> {
    let old = match body {
        Some(b) => b,
        None => Seq::empty(),
    };
    kept_text(old) + chain_section(chain, this)
}

/// The pieces of `s` between its newlines.
fn split_segments(s: &str) -> (r: Vec<String>)
    ensures
        names_of(r@) == segments(s@),
{
    let n = s.unicode_len();
    let mut r: Vec<String> = Vec::new();
    let mut start: usize = 0;
    let mut i: usize = 0;
    assert(s@.subrange(0, 0) =~= Seq::<char>::empty());
    assert(names_of(r@) =~= Seq::<Seq<char>>::empty());
    assert(names_of(r@).push(s@.subrange(0, 0)) =~= seq![Seq::<char>::empty()]);
    while i < n
        invariant
            n == s@.len(),
            start <= i <= n,
            segments(s@.subrange(0, i as int)) == names_of(r@).push(s@.subrange(start as int, i as int)),
        decreases n - i,
    {
        let c = s.get_char(i);
        let ghost prefix = s@.subrange(0, i + 1);
        assert(prefix.drop_last() =~= s@.subrange(0, i as int));
        assert(prefix.last() == c);
        if c == '\n' {
            let ghost prev = r@;
            r.push(String::from_str(s.substring_char(start, i)));
            assert(names_of(r@) =~= names_of(prev).push(s@.subrange(start as int, i as int)));
            start = i + 1;
            assert(s@.subrange(start as int, i + 1) =~= Seq::<char>::empty());
        } else {
            assert(s@.subrange(start as int, i + 1) =~= s@.subrange(start as int, i as int).push(c));
        }
        i = i + 1;
    }
    let ghost prev = r@;
    r.push(String::from_str(s.substring_char(start, n)));
    assert(names_of(r@) =~= names_of(prev).push(s@.subrange(start as int, n as int)));
    assert(s@.subrange(0, n as int) =~= s@);
    r
}

/// Whether the marker occurs in `line`.
fn line_has_marker(line: &String) -> (r: bool)
    ensures
        r == has_marker(line@),
{
    let t = line.as_str();
    let n = t.unicode_len();
    if n < 3 {
        return false;
    }
    let mut i: usize = 0;
    while i < n - 2
        invariant
            n == t@.len(),
            t@ == line@,
            n >= 3,
            i <= n - 2,
            forall|j: int| 0 <= j < i ==> #[trigger] line@.subrange(j, j + 3) != seq!['-', '-', '-'],
        decreases n - i,
    {
        if t.get_char(i) == '-' && t.get_char(i + 1) == '-' && t.get_char(i + 2) == '-' {
            assert(line@.subrange(i as int, i + 3) =~= seq!['-', '-', '-']);
            return true;
        }
        assert(line@.subrange(i as int, i + 3) != seq!['-', '-', '-']) by {
            if line@.subrange(i as int, i + 3) == seq!['-', '-', '-'] {
                assert(line@.subrange(i as int, i + 3)[0] == line@[i as int]);
                assert(line@.subrange(i as int, i + 3)[1] == line@[i + 1]);
                assert(line@.subrange(i as int, i + 3)[2] == line@[i + 2]);
            }
        }
        i = i + 1;
    }
    false
}

proof fn lemma_marker_cut(ls: Seq<Seq<char>>, k: int)
    requires
        0 <= k <= ls.len(),
        forall|j: int| 0 <= j < k ==> !has_marker(#[trigger] ls[j]),
        k == ls.len() || has_marker(ls[k]),
    ensures
        marker_cut(ls) == k,
{
    assert(cut_at(ls, k));
    let c = marker_cut(ls);
    assert(cut_at(ls, c));
    if c < k {
        assert(!has_marker(ls[c]));
    }
    if k < c {
        assert(!has_marker(ls[k]));
    }
}

/// The text of `body` that a new description keeps: the lines before the
/// first line with the marker, joined with newlines.
pub fn kept_body_text(body: &String) -> (r: String)
    ensures
        r@ == kept_text(body@),
{
    let mut ls = split_segments(body.as_str());
    let ghost g = names_of(ls@);
    assert(ls.len() > 0) by {
        lemma_segments_nonempty(body@);
    }
    if ls[ls.len() - 1].as_str().unicode_len() == 0 {
        ls.pop();
        assert(names_of(ls@) =~= g.drop_last());
    }
    let ghost lines = names_of(ls@);
    assert(lines == lines_of(body@));
    let mut k: usize = 0;
    while k < ls.len() && !line_has_marker(&ls[k])
        invariant
            k <= ls.len(),
            lines == names_of(ls@),
            forall|j: int| 0 <= j < k ==> !has_marker(#[trigger] lines[j]),
        decreases ls.len() - k,
    {
        k = k + 1;
    }
    proof {
        lemma_marker_cut(lines, k as int);
    }
    let mut r = String::new();
    let mut j: usize = 0;
    while j < k
        invariant
            k <= ls.len(),
            j <= k,
            lines == names_of(ls@),
            r@ == join_lines(lines.subrange(0, j as int)),
        decreases k - j,
    {
        let ghost sub = lines.subrange(0, j + 1);
        assert(sub.drop_last() =~= lines.subrange(0, j as int));
        if j > 0 {
            r.append("\n");
            proof {
                reveal_strlit("\n");
            }
        }
        r.append(ls[j].as_str());
        proof {
            if j == 0 {
                assert(r@ =~= sub[0]);
            } else {
                assert(r@ =~= join_lines(sub.drop_last()) + seq!['\n'] + sub.last());
            }
        }
        j = j + 1;
    }
    r
}

proof fn lemma_segments_nonempty(s: Seq<char>)
    ensures
        segments(s).len() > 0,
    decreases s.len(),
{
    if s.len() > 0 {
        lemma_segments_nonempty(s.drop_last());
    }
}

/// The listing of `chain`, top of the stack first, with `this` annotated.
fn listing(chain: &Vec<u64>, this: u64) -> (r: String)
    ensures
        r@ == chain_listing(chain@, this),
{
    let mut r = String::new();
    let mut k: usize = chain.len();
    assert(chain@.subrange(chain.len() as int, chain.len() as int) =~= Seq::<u64>::empty());
    while k > 0
        invariant
            k <= chain.len(),
            r@ == chain_listing(chain@.subrange(k as int, chain.len() as int), this),
        decreases k,
    {
        let n = chain[k - 1];
        let ghost sub = chain@.subrange(k - 1, chain.len() as int);
        assert(sub.drop_first() =~= chain@.subrange(k as int, chain.len() as int));
        let ghost before = r@;
        r.append("- #");
        let d = decimal(n);
        r.append(d.as_str());
        if n == this {
            r.append(" (This PR)");
        }
        r.append("\n");
        assert(r@ =~= before + listing_entry(n, this));
        k = k - 1;
    }
    assert(chain@.subrange(0, chain.len() as int) =~= chain@);
    r
}

/// The description of pull request `this` in a chain whose pull requests are
/// `chain`, bottom first: the text of `old_body` before the marker, the
/// marker, every pull request of the chain top first with `this` annotated,
/// and the footer.
pub fn pr_description(chain: &Vec<u64>, this: u64, old_body: &Option<String>) -> (r: String)
    ensures
        r@ == description_of(chain@, this, opt_view(*old_body)),
{
    let mut r = match old_body {
        Some(b) => kept_body_text(b),
        None => kept_body_text(&String::new()),
    };
    let ghost kept = r@;
    r.append("\n---\n");
    let l = listing(chain, this);
    r.append(l.as_str());
    r.append("\n**Created by [gstack](https://github.com/Bendzae/gstack)**");
    assert(r@ =~= kept + chain_section(chain@, this));
    r
}

/// A regenerated description ends with the same section whatever its old
/// body was, the section depends on the chain alone, and in its listing only
/// the entry of the pull request being described carries the annotation.
pub proof fn lemma_description_deterministic(
    chain: Seq<u64>,
    this: u64,
    b1: Option<Seq<char>>,
    b2: Option<Seq<char>>,
)
    ensures
        description_of(chain, this, b1).subrange(
            description_of(chain, this, b1).len() - chain_section(chain, this).len(),
            description_of(chain, this, b1).len() as int,
        ) == chain_section(chain, this),
        description_of(chain, this, b2).subrange(
            description_of(chain, this, b2).len() - chain_section(chain, this).len(),
            description_of(chain, this, b2).len() as int,
        ) == chain_section(chain, this),
        forall|n: u64|
            n != this ==> #[trigger] listing_entry(n, this) == "- #"@ + decimal_of(n as nat) + "\n"@,
        listing_entry(this, this) == "- #"@ + decimal_of(this as nat) + " (This PR)"@ + "\n"@,
{
    let d1 = description_of(chain, this, b1);
    let d2 = description_of(chain, this, b2);
    let sec = chain_section(chain, this);
    let k1 = match b1 {
        Some(b) => kept_text(b),
        None => kept_text(Seq::empty()),
    };
    let k2 = match b2 {
        Some(b) => kept_text(b),
        None => kept_text(Seq::empty()),
    };
    assert(d1 == k1 + sec);
    assert(d2 == k2 + sec);
    assert(d1.subrange(d1.len() - sec.len(), d1.len() as int) =~= sec);
    assert(d2.subrange(d2.len() - sec.len(), d2.len() as int) =~= sec);
    assert forall|n: u64| n != this implies #[trigger] listing_entry(n, this) == "- #"@
        + decimal_of(n as nat) + "\n"@ by {
        assert(listing_entry(n, this) =~= "- #"@ + decimal_of(n as nat) + "\n"@);
    }
}

/// A newline in the middle splits the segments in two.
proof fn lemma_segments_split(x: Seq<char>, y: Seq<char>)
    ensures
        segments(x + seq!['\n'] + y) == segments(x) + segments(y),
    decreases y.len(),
{
    let xn = x + seq!['\n'];
    if y.len() == 0 {
        assert(xn + y =~= xn);
        assert(xn.drop_last() =~= x);
        assert(segments(x) + segments(y) =~= segments(x).push(Seq::empty()));
    } else {
        let y0 = y.drop_last();
        let c = y.last();
        lemma_segments_split(x, y0);
        lemma_segments_nonempty(y0);
        assert((xn + y).drop_last() =~= xn + y0);
        assert((xn + y).last() == c);
        let a = segments(x);
        let b = segments(y0);
        if c == '\n' {
            assert((a + b).push(Seq::empty()) =~= a + b.push(Seq::empty()));
        } else {
            let ab = a + b;
            assert(ab.update(ab.len() - 1, ab.last().push(c)) =~= a + b.update(
                b.len() - 1,
                b.last().push(c),
            ));
        }
    }
}

/// A text without newlines is one segment.
proof fn lemma_segments_single(s: Seq<char>)
    requires
        !s.contains('\n'),
    ensures
        segments(s) == seq![s],
    decreases s.len(),
{
    if s.len() == 0 {
        assert(s =~= Seq::<char>::empty());
    } else {
        let s0 = s.drop_last();
        assert(!s0.contains('\n')) by {
            if s0.contains('\n') {
                let i = choose|i: int| 0 <= i < s0.len() && s0[i] == '\n';
                assert(s[i] == '\n');
            }
        }
        lemma_segments_single(s0);
        assert(s.last() != '\n') by {
            assert(s[s.len() - 1] == s.last());
        }
        assert(s0.push(s.last()) =~= s);
        assert(seq![s0].update(0, s0.push(s.last())) =~= seq![s]);
    }
}

/// No segment holds a newline.
proof fn lemma_segments_no_newline(s: Seq<char>)
    ensures
        forall|i: int| 0 <= i < segments(s).len() ==> !(#[trigger] segments(s)[i]).contains('\n'),
    decreases s.len(),
{
    if s.len() > 0 {
        let s0 = s.drop_last();
        lemma_segments_no_newline(s0);
        lemma_segments_nonempty(s0);
        let r = segments(s0);
        if s.last() != '\n' {
            let l = r.last().push(s.last());
            assert(!l.contains('\n')) by {
                if l.contains('\n') {
                    let i = choose|i: int| 0 <= i < l.len() && l[i] == '\n';
                    if i < r.last().len() {
                        assert(r.last()[i] == '\n');
                        assert(r[r.len() - 1].contains('\n'));
                    }
                }
            }
            assert forall|i: int| 0 <= i < segments(s).len() implies !(
            #[trigger] segments(s)[i]).contains('\n') by {
                if i < r.len() - 1 {
                    assert(segments(s)[i] == r[i]);
                }
            }
        } else {
            assert forall|i: int| 0 <= i < segments(s).len() implies !(
            #[trigger] segments(s)[i]).contains('\n') by {
                if i < r.len() {
                    assert(segments(s)[i] == r[i]);
                } else {
                    assert(segments(s)[i] =~= Seq::<char>::empty());
                }
            }
        }
    }
}

/// Joining lines without newlines and splitting them again gives them back.
proof fn lemma_segments_join(ls: Seq<Seq<char>>)
    requires
        ls.len() > 0,
        forall|i: int| 0 <= i < ls.len() ==> !(#[trigger] ls[i]).contains('\n'),
    ensures
        segments(join_lines(ls)) == ls,
    decreases ls.len(),
{
    if ls.len() == 1 {
        lemma_segments_single(ls[0]);
        assert(seq![ls[0]] =~= ls);
    } else {
        let init = ls.drop_last();
        assert forall|i: int| 0 <= i < init.len() implies !(#[trigger] init[i]).contains('\n') by {
            assert(init[i] == ls[i]);
        }
        lemma_segments_join(init);
        lemma_segments_split(join_lines(init), ls.last());
        assert(!ls[ls.len() - 1].contains('\n'));
        lemma_segments_single(ls.last());
        assert(init + seq![ls.last()] =~= ls);
    }
}

/// The marker line.
pub open spec fn marker_line() -> Seq<char> {
    seq!['-', '-', '-']
}

/// Lines without marker or newline, followed by a marker line and anything:
/// what is kept of that text is those lines joined again.
/// The lines to join again: the kept lines, or one empty line for none.
spec fn head_lines(kept: Seq<Seq<char>>) -> Seq<Seq<char>> {
    if kept.len() == 0 {
        seq![Seq::<char>::empty()]
    } else {
        kept
    }
}

proof fn lemma_regen_segments(kept: Seq<Seq<char>>, z: Seq<char>)
    requires
        forall|i: int| 0 <= i < kept.len() ==> !(#[trigger] kept[i]).contains('\n'),
    ensures
        segments(join_lines(kept) + seq!['\n'] + (marker_line() + seq!['\n'] + z)) == head_lines(
            kept,
        ) + seq![marker_line()] + segments(z),
        segments(z).len() > 0,
{
    let m = marker_line();
    let k = join_lines(kept);
    lemma_segments_split(k, m + seq!['\n'] + z);
    lemma_segments_split(m, z);
    assert(!m.contains('\n')) by {
        if m.contains('\n') {
            let i = choose|i: int| 0 <= i < m.len() && m[i] == '\n';
        }
    }
    lemma_segments_single(m);
    lemma_segments_nonempty(z);
    if kept.len() == 0 {
        assert(k =~= Seq::<char>::empty());
    } else {
        lemma_segments_join(kept);
    }
    assert(segments(m) + segments(z) =~= seq![m] + segments(z));
    assert(head_lines(kept) + (seq![m] + segments(z)) =~= head_lines(kept) + seq![m] + segments(z));
}

proof fn lemma_cut_after_head(ls: Seq<Seq<char>>, head: Seq<Seq<char>>)
    requires
        ls.len() >= head.len() + 1,
        ls.subrange(0, head.len() as int + 1) == head.push(marker_line()),
        forall|i: int| 0 <= i < head.len() ==> !has_marker(#[trigger] head[i]),
    ensures
        ls.subrange(0, marker_cut(ls)) == head,
{
    let m = marker_line();
    assert(has_marker(m)) by {
        assert(m.subrange(0, 0 + m.len() as int) =~= m);
    }
    assert(ls[head.len() as int] == ls.subrange(0, head.len() as int + 1)[head.len() as int]);
    assert forall|j: int| 0 <= j < head.len() implies !has_marker(#[trigger] ls[j]) by {
        assert(ls[j] == ls.subrange(0, head.len() as int + 1)[j]);
        assert(ls[j] == head[j]);
    }
    lemma_marker_cut(ls, head.len() as int);
    assert(ls.subrange(0, head.len() as int) =~= head) by {
        assert forall|j: int| 0 <= j < head.len() implies ls.subrange(0, head.len() as int)[j]
            == head[j] by {
            assert(ls[j] == ls.subrange(0, head.len() as int + 1)[j]);
        }
    }
}

/// Lines without marker or newline, followed by a marker line and anything:
/// what is kept of that text is those lines joined again.
proof fn lemma_kept_of_regenerated(kept: Seq<Seq<char>>, z: Seq<char>)
    requires
        forall|i: int| 0 <= i < kept.len() ==> !(#[trigger] kept[i]).contains('\n'),
        forall|i: int| 0 <= i < kept.len() ==> !has_marker(#[trigger] kept[i]),
    ensures
        kept_text(join_lines(kept) + seq!['\n'] + (marker_line() + seq!['\n'] + z)) == join_lines(
            kept,
        ),
{
    let m = marker_line();
    let d = join_lines(kept) + seq!['\n'] + (m + seq!['\n'] + z);
    let head = head_lines(kept);
    lemma_regen_segments(kept, z);
    let g = segments(d);
    let ls = lines_of(d);
    assert(ls.subrange(0, head.len() as int + 1) =~= head.push(m)) by {
        assert forall|j: int| 0 <= j < head.len() + 1 implies ls.subrange(0, head.len() as int + 1)[j]
            == head.push(m)[j] by {
            assert(ls[j] == g[j]);
        }
    }
    assert forall|i: int| 0 <= i < head.len() implies !has_marker(#[trigger] head[i]) by {
        if kept.len() == 0 {
            assert(head[i] =~= Seq::<char>::empty());
        }
    }
    lemma_cut_after_head(ls, head);
    if kept.len() == 0 {
        assert(join_lines(head) == Seq::<char>::empty());
    }
}

/// Describing a pull request again, from the description it already has,
/// gives that same description: the text before the marker is kept as it
/// was, and the section after it is written anew from the same chain.
pub proof fn lemma_description_idempotent(chain: Seq<u64>, this: u64, body: Option<Seq<char>>)
    ensures
        description_of(chain, this, Some(description_of(chain, this, body))) == description_of(
            chain,
            this,
            body,
        ),
{
    let b0 = match body {
        Some(b) => b,
        None => Seq::empty(),
    };
    let ls0 = lines_of(b0);
    let kept = ls0.subrange(0, marker_cut(ls0));
    let k = join_lines(kept);
    reveal_strlit("\n---\n");
    let z = chain_listing(chain, this) + footer();
    let d = k + chain_section(chain, this);
    assert(d =~= k + seq!['\n'] + (marker_line() + seq!['\n'] + z));
    lemma_segments_nonempty(b0);
    lemma_segments_no_newline(b0);
    let g0 = segments(b0);
    lemma_cut_exists(ls0);
    assert forall|i: int| 0 <= i < kept.len() implies !(#[trigger] kept[i]).contains('\n') by {
        assert(kept[i] == ls0[i]);
        assert(ls0[i] == g0[i]);
    }
    assert forall|i: int| 0 <= i < kept.len() implies !has_marker(#[trigger] kept[i]) by {
        assert(kept[i] == ls0[i]);
    }
    lemma_kept_of_regenerated(kept, z);
}

/// Some cut always exists: the first line with the marker, or the end.
proof fn lemma_cut_exists(ls: Seq<Seq<char>>)
    ensures
        cut_at(ls, marker_cut(ls)),
{
    let k = first_marker_from(ls, 0);
    lemma_first_marker_from(ls, 0);
    assert(cut_at(ls, k));
}

/// The first line at or after `i` with the marker, or the end.
spec fn first_marker_from(ls: Seq<Seq<char>>, i: int) -> int
    decreases ls.len() - i,
{
    if i >= ls.len() {
        ls.len() as int
    } else if has_marker(ls[i]) {
        i
    } else {
        first_marker_from(ls, i + 1)
    }
}

proof fn lemma_first_marker_from(ls: Seq<Seq<char>>, i: int)
    requires
        0 <= i <= ls.len(),
    ensures
        i <= first_marker_from(ls, i) <= ls.len(),
        forall|j: int| i <= j < first_marker_from(ls, i) ==> !has_marker(#[trigger] ls[j]),
        first_marker_from(ls, i) == ls.len() || has_marker(ls[first_marker_from(ls, i)]),
    decreases ls.len() - i,
{
    if i < ls.len() && !has_marker(ls[i]) {
        lemma_first_marker_from(ls, i + 1);
    }
}

} // verus!
