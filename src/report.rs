use vstd::prelude::*;

use crate::domain::{domain_text, Domain};
use crate::error::{CspError, TraceFrame};
use crate::term::{int_text, plain_term_text, term_text, Term};

verus! {

/// The first position, from `start` on, at which `needle` occurs in `hay`.
pub open spec fn first_match(hay: Seq<char>, needle: Seq<char>, start: int) -> Option<int>
    decreases hay.len() + 1 - start,
{
    if start < 0 || start + needle.len() > hay.len() {
        None
    } else if hay.subrange(start, start + needle.len()) == needle {
        Some(start)
    } else {
        first_match(hay, needle, start + 1)
    }
}

/// The first line of a constrained frame, without its line break.
pub open spec fn frame_header(c: Seq<char>) -> Seq<char> {
    seq!['\u{2192}', ' ', '`'] + c + seq!['`']
}

/// Where the first line of a frame mentions a term, by identity.
pub open spec fn mention(c: Seq<char>, t: Term) -> Option<int> {
    first_match(frame_header(c), plain_term_text(t), 0)
}

/// Column `k` of the line of entry `i` carries a bar: an earlier entry is mentioned there.
pub open spec fn bar_at(c: Seq<char>, ds: Seq<(Term, Domain)>, i: int, k: int) -> bool {
    exists|j: int| 0 <= j < i && #[trigger] mention(c, ds[j].0) == Some(k)
}

/// The line of entry `i`: under the mention of its term, the term and its domain.
pub open spec fn entry_line(c: Seq<char>, ds: Seq<(Term, Domain)>, i: int) -> Seq<char> {
    match mention(c, ds[i].0) {
        Some(off) => Seq::new(off as nat, |k: int| if bar_at(c, ds, i, k) { '\u{2502}' } else { ' ' })
            + seq!['\u{2570}', '\u{2500}', ' '] + term_text(ds[i].0) + seq![' ', '\u{2208}', ' ']
            + domain_text(ds[i].1) + seq!['\n'],
        None => Seq::<char>::empty(),
    }
}

/// The lines of the first `n` entries, the last one first.
pub open spec fn entry_lines(c: Seq<char>, ds: Seq<(Term, Domain)>, n: int) -> Seq<char>
    decreases n,
{
    if n <= 0 {
        Seq::<char>::empty()
    } else {
        entry_line(c, ds, n - 1) + entry_lines(c, ds, n - 1)
    }
}

/// The text `render_frame` writes.
pub open spec fn frame_text(f: TraceFrame) -> Seq<char> {
    match f {
        TraceFrame::Branched { var, value } => seq!['\u{2192}'] + seq![
            ' ',
            'b',
            'r',
            'a',
            'n',
            'c',
            'h',
            'e',
            'd',
            ' ',
        ] + term_text(var) + seq![' ', '=', ' '] + int_text(value as int),
        TraceFrame::Constrained { constraint, domains } => frame_header(constraint@) + seq!['\n']
            + entry_lines(constraint@, domains@, domains@.len() as int),
        TraceFrame::Backtracked { var, failed_value } => seq!['\u{2192}'] + seq![
            ' ',
            'b',
            'a',
            'c',
            'k',
            't',
            'r',
            'a',
            'c',
            'k',
            'e',
            'd',
            ' ',
            'f',
            'o',
            'r',
            ' ',
        ] + term_text(var) + seq![' ', '\u{2260}', ' '] + int_text(failed_value as int),
    }
}

fn chars_of(s: &str) -> (r: Vec<char>)
    ensures
        r@ == s@,
{
    let n = s.unicode_len();
    let mut r: Vec<char> = Vec::new();
    let mut i: usize = 0;
    while i < n
        invariant
            n == s@.len(),
            0 <= i <= n,
            r@ == s@.subrange(0, i as int),
        decreases n - i,
    {
        r.push(s.get_char(i));
        assert(r@ =~= s@.subrange(0, i + 1));
        i = i + 1;
    }
    assert(r@ =~= s@);
    r
}

/// The first position at which `needle` occurs in `hay`.
pub fn find_chars(hay: &Vec<char>, needle: &Vec<char>) -> (r: Option<usize>)
    ensures
        first_match(hay@, needle@, 0) == match r {
            Some(x) => Some(x as int),
            None => None::<int>,
        },
{
    if needle.len() > hay.len() {
        return None;
    }
    let last = hay.len() - needle.len();
    let mut start: usize = 0;
    while start <= last
        invariant
            last == hay@.len() - needle@.len(),
            last <= hay.len(),
            0 <= start <= last + 1,
            first_match(hay@, needle@, 0) == first_match(hay@, needle@, start as int),
        decreases last + 1 - start,
    {
        let mut k: usize = 0;
        let mut same = true;
        while k < needle.len()
            invariant
                0 <= k <= needle@.len(),
                last == hay@.len() - needle@.len(),
                start <= last,
                start + needle@.len() <= hay.len(),
                same == (forall|j: int| 0 <= j < k ==> hay@[start + j] == needle@[j]),
            decreases needle@.len() - k,
        {
            if hay[start + k] != needle[k] {
                same = false;
            }
            k = k + 1;
        }
        if same {
            assert(hay@.subrange(start as int, start + needle@.len()) =~= needle@);
            return Some(start);
        }
        proof {
            let j = choose|j: int| 0 <= j < needle@.len() && hay@[start + j] != needle@[j];
            assert(hay@.subrange(start as int, start + needle@.len())[j] != needle@[j]);
            assert(needle@.len() > 0);
        }
        start = start + 1;
    }
    None
}

fn append_chars(s: &mut String, cs: &Vec<char>, i: usize)
    requires
        i <= cs@.len(),
        forall|q: int| 0 <= q < i ==> cs@[q] == '\u{2502}' || cs@[q] == ' ',
    ensures
        final(s)@ == old(s)@ + cs@.subrange(0, i as int),
{
    let ghost start = s@;
    let mut k: usize = 0;
    while k < i
        invariant
            i <= cs@.len(),
            0 <= k <= i,
            forall|q: int| 0 <= q < i ==> cs@[q] == '\u{2502}' || cs@[q] == ' ',
            s@ == start + cs@.subrange(0, k as int),
        decreases i - k,
    {
        let t = if cs[k] == '\u{2502}' { "\u{2502}" } else { " " };
        proof {
            reveal_strlit("\u{2502}");
            reveal_strlit(" ");
        }
        s.append(t);
        assert(s@ =~= start + cs@.subrange(0, k + 1));
        k = k + 1;
    }
}

/// Renders one frame of a trace for people. A constrained frame takes several
/// lines: the relation, then for each observed term, last one first, a line
/// that starts under the term's mention and shows its domain, with bars under
/// the mentions of the terms listed before it.
pub fn render_frame(f: &TraceFrame) -> (r: String)
    ensures
        r@ == frame_text(*f),
{
    let mut s = String::new();
    match f {
        TraceFrame::Branched { var, value } => {
            proof {
                reveal_strlit("\u{2192} branched ");
                reveal_strlit(" = ");
            }
            s.append("\u{2192} branched ");
            let t = var.render();
            s.append(t.as_str());
            s.append(" = ");
            crate::term::push_int(&mut s, *value as i64);
            assert(s@ =~= frame_text(*f));
        },
        TraceFrame::Backtracked { var, failed_value } => {
            proof {
                reveal_strlit("\u{2192} backtracked for ");
                reveal_strlit(" \u{2260} ");
            }
            s.append("\u{2192} backtracked for ");
            let t = var.render();
            s.append(t.as_str());
            s.append(" \u{2260} ");
            crate::term::push_int(&mut s, *failed_value as i64);
            assert(s@ =~= frame_text(*f));
        },
        TraceFrame::Constrained { constraint, domains } => {
            proof {
                reveal_strlit("\u{2192} `");
                reveal_strlit("`");
                reveal_strlit("\n");
            }
            let mut header = String::new();
            header.append("\u{2192} `");
            header.append(constraint.as_str());
            header.append("`");
            let hay = chars_of(header.as_str());
            s.append(header.as_str());
            s.append("\n");
            let ghost c = constraint@;
            let ghost ds = domains@;
            let mut offsets: Vec<Option<usize>> = Vec::new();
            let mut i: usize = 0;
            while i < domains.len()
                invariant
                    0 <= i <= domains@.len(),
                    hay@ == frame_header(c),
                    c == constraint@,
                    ds == domains@,
                    offsets@.len() == i,
                    forall|j: int| 0 <= j < i ==> #[trigger] mention(c, ds[j].0) == match offsets@[j] {
                        Some(o) => Some(o as int),
                        None => None::<int>,
                    },
                decreases domains@.len() - i,
            {
                let name = domains[i].0.no_name();
                let needle = chars_of(name.as_str());
                offsets.push(find_chars(&hay, &needle));
                i = i + 1;
            }
            let ghost head = s@;
            let mut n: usize = domains.len();
            while n > 0
                invariant
                    0 <= n <= domains@.len(),
                    c == constraint@,
                    ds == domains@,
                    offsets@.len() == ds.len(),
                    forall|j: int| 0 <= j < ds.len() ==> #[trigger] mention(c, ds[j].0) == match offsets@[j] {
                        Some(o) => Some(o as int),
                        None => None::<int>,
                    },
                    s@ + entry_lines(c, ds, n as int) == head + entry_lines(c, ds, ds.len() as int),
                decreases n,
            {
                let e = n - 1;
                let ghost before = s@;
                match offsets[e] {
                    Some(off) => {
                        let mut pad: Vec<char> = Vec::new();
                        let mut k: usize = 0;
                        while k < off
                            invariant
                                0 <= k <= off,
                                e < ds.len(),
                                offsets@.len() == ds.len(),
                                forall|j: int| 0 <= j < ds.len() ==> #[trigger] mention(c, ds[j].0) == match offsets@[j] {
                                    Some(o) => Some(o as int),
                                    None => None::<int>,
                                },
                                pad@.len() == k,
                                forall|q: int| 0 <= q < k ==> pad@[q] == if bar_at(c, ds, e as int, q) {
                                    '\u{2502}'
                                } else {
                                    ' '
                                },
                            decreases off - k,
                        {
                            let mut j: usize = 0;
                            let mut bar = false;
                            while j < e
                                invariant
                                    0 <= j <= e,
                                    e < ds.len(),
                                    offsets@.len() == ds.len(),
                                    forall|j: int| 0 <= j < ds.len() ==> #[trigger] mention(c, ds[j].0) == match offsets@[j] {
                                        Some(o) => Some(o as int),
                                        None => None::<int>,
                                    },
                                    bar == exists|q: int| 0 <= q < j && #[trigger] mention(c, ds[q].0) == Some(k as int),
                                decreases e - j,
                            {
                                let hit = match offsets[j] {
                                    Some(o) => o == k,
                                    None => false,
                                };
                                assert(hit == (mention(c, ds[j as int].0) == Some(k as int)));
                                if hit {
                                    bar = true;
                                }
                                j = j + 1;
                            }
                            pad.push(if bar { '\u{2502}' } else { ' ' });
                            k = k + 1;
                        }
                        append_chars(&mut s, &pad, pad.len());
                        proof {
                            reveal_strlit("\u{2570}\u{2500} ");
                            reveal_strlit(" \u{2208} ");
                            reveal_strlit("\n");
                        }
                        s.append("\u{2570}\u{2500} ");
                        let t = domains[e].0.render();
                        s.append(t.as_str());
                        s.append(" \u{2208} ");
                        let d = domains[e].1.render();
                        s.append(d.as_str());
                        s.append("\n");
                        proof {
                            let f = |k: int| if bar_at(c, ds, e as int, k) { '\u{2502}' } else { ' ' };
                            let padseq = Seq::new(off as nat, f);
                            assert(pad@ =~= padseq);
                            assert(pad@.subrange(0, pad@.len() as int) =~= pad@);
                            assert(entry_line(c, ds, e as int) =~= padseq + seq!['\u{2570}', '\u{2500}', ' ']
                                + term_text(ds[e as int].0) + seq![' ', '\u{2208}', ' '] + domain_text(
                                ds[e as int].1,
                            ) + seq!['\n']);
                            assert(s@ =~= before + entry_line(c, ds, e as int));
                        }
                    },
                    None => {
                        assert(entry_line(c, ds, e as int) =~= Seq::<char>::empty());
                        assert(s@ =~= before + entry_line(c, ds, e as int));
                    },
                }
                assert(entry_lines(c, ds, n as int) == entry_line(c, ds, e as int) + entry_lines(c, ds, e as int));
                assert(s@ + entry_lines(c, ds, e as int) =~= before + entry_lines(c, ds, n as int));
                n = e;
            }
            assert(s@ =~= head + entry_lines(c, ds, ds.len() as int));
        },
    }
    s
}

/// `t` with each of its lines indented by four spaces and ended by a line
/// break, from position `i` on; `fresh` when `i` starts a line.
pub open spec fn indent_from(t: Seq<char>, i: int, fresh: bool) -> Seq<char>
    decreases t.len() - i,
{
    if i >= t.len() || i < 0 {
        if fresh {
            Seq::<char>::empty()
        } else {
            seq!['\n']
        }
    } else {
        (if fresh {
            seq![' ', ' ', ' ', ' ']
        } else {
            Seq::<char>::empty()
        }) + if t[i] == '\n' {
            seq!['\n'] + indent_from(t, i + 1, true)
        } else {
            seq![t[i]] + indent_from(t, i + 1, false)
        }
    }
}

/// The frames of a trace, each rendered and indented, in order.
pub open spec fn frames_text(fs: Seq<TraceFrame>) -> Seq<char>
    decreases fs.len(),
{
    if fs.len() == 0 {
        Seq::<char>::empty()
    } else {
        frames_text(fs.drop_last()) + indent_from(frame_text(fs.last()), 0, true)
    }
}

/// The text `CspError::report` writes.
pub open spec fn report_text(e: CspError) -> Seq<char> {
    seq!['c', 'o', 'n', 's', 't', 'r', 'a', 'i', 'n', 't', ' ', 'f', 'a', 'i', 'l', 'e', 'd', ':', ' ']
        + e.constraint_spec() + seq!['\n', 't', 'r', 'a', 'c', 'e', ':', '\n'] + frames_text(
        e.trace_spec(),
    ) + seq!['r', 'e', 'a', 's', 'o', 'n', ':', ' '] + match e.reason_spec() {
        Some(r) => r,
        None => seq!['n', 'o', 't', ' ', 'p', 'r', 'o', 'v', 'i', 'd', 'e', 'd'],
    }
}

/// Appends `t` with each line indented by four spaces and ended by a line break.
fn push_indented(s: &mut String, t: &str)
    ensures
        final(s)@ == old(s)@ + indent_from(t@, 0, true),
{
    proof {
        reveal_strlit("    ");
        reveal_strlit("\n");
    }
    let n = t.unicode_len();
    let ghost start = s@;
    let mut i: usize = 0;
    let mut fresh = true;
    while i < n
        invariant
            n == t@.len(),
            0 <= i <= n,
            s@ + indent_from(t@, i as int, fresh) == start + indent_from(t@, 0, true),
        decreases n - i,
    {
        let ghost before = s@;
        let ghost was_fresh = fresh;
        proof {
            reveal_strlit("    ");
            reveal_strlit("\n");
        }
        if fresh {
            s.append("    ");
        }
        let c = t.get_char(i);
        if c == '\n' {
            s.append("\n");
            fresh = true;
        } else {
            s.append(t.substring_char(i, i + 1));
            fresh = false;
        }
        proof {
            assert(t@.subrange(i as int, i + 1) =~= seq![t@[i as int]]);
            assert(indent_from(t@, i as int, was_fresh) =~= (if was_fresh {
                seq![' ', ' ', ' ', ' ']
            } else {
                Seq::<char>::empty()
            }) + if t@[i as int] == '\n' {
                seq!['\n'] + indent_from(t@, i + 1, true)
            } else {
                seq![t@[i as int]] + indent_from(t@, i + 1, false)
            });
            assert(s@ + indent_from(t@, i + 1, fresh) =~= before + indent_from(t@, i as int, was_fresh));
        }
        i = i + 1;
    }
    proof {
        reveal_strlit("\n");
    }
    if !fresh {
        s.append("\n");
    }
    assert(s@ =~= start + indent_from(t@, 0, true));
}

impl CspError {
    /// The error for people: the constraint, the trace with every frame
    /// indented, and the reason.
    pub fn report(&self) -> (r: String)
        ensures
            r@ == report_text(*self),
    {
        proof {
            reveal_strlit("constraint failed: ");
            reveal_strlit("\ntrace:\n");
            reveal_strlit("reason: ");
            reveal_strlit("not provided");
        }
        let mut s = String::new();
        s.append("constraint failed: ");
        s.append(self.constraint());
        s.append("\ntrace:\n");
        let frames = self.trace();
        let ghost head = s@;
        let mut i: usize = 0;
        while i < frames.len()
            invariant
                0 <= i <= frames@.len(),
                frames@ == self.trace_spec(),
                s@ == head + frames_text(frames@.subrange(0, i as int)),
            decreases frames@.len() - i,
        {
            let text = render_frame(&frames[i]);
            push_indented(&mut s, text.as_str());
            proof {
                let p = frames@.subrange(0, i + 1);
                assert(p.drop_last() =~= frames@.subrange(0, i as int));
                assert(p.last() == frames@[i as int]);
            }
            i = i + 1;
        }
        assert(frames@.subrange(0, frames@.len() as int) =~= frames@);
        proof {
            reveal_strlit("reason: ");
            reveal_strlit("not provided");
        }
        s.append("reason: ");
        match self.reason() {
            Some(t) => s.append(t),
            None => s.append("not provided"),
        }
        s
    }
}

/// `(term, domain)` entries, comma-separated, as `summary` lists them.
pub open spec fn pairs_text(ds: Seq<(Term, Domain)>) -> Seq<char>
    decreases ds.len(),
{
    if ds.len() == 0 {
        Seq::<char>::empty()
    } else {
        let last = seq!['('] + term_text(ds.last().0) + seq![',', ' '] + domain_text(ds.last().1) + seq![')'];
        if ds.len() == 1 {
            last
        } else {
            pairs_text(ds.drop_last()) + seq![',', ' '] + last
        }
    }
}

/// The text `summary` writes.
pub open spec fn summary_text(f: TraceFrame) -> Seq<char> {
    match f {
        TraceFrame::Branched { var, value } => seq!['v', 'a', 'r', ':', ' '] + term_text(var) + seq![' ', 'v', 'a', 'l', 'u', 'e', ':', ' '] + int_text(
            value as int,
        ),
        TraceFrame::Constrained { constraint, domains } => seq!['c', 'o', 'n', 's', 't', 'r', 'a', 'i', 'n', 't', ':', ' '] + constraint@ + seq![',', ' ', 'd', 'o', 'm', 'a', 'i', 'n', 's', ':', ' ', '[']
            + pairs_text(domains@) + seq![']'],
        TraceFrame::Backtracked { var, failed_value } => seq!['v', 'a', 'r', ' '] + term_text(var) + seq![',', ' ', 'f', 'a', 'i', 'l', 'e', 'd', ' ', 'v', 'a', 'l', 'u', 'e', ':', ' ']
            + int_text(failed_value as int),
    }
}

impl TraceFrame {
    /// The frame on one line.
    pub fn summary(&self) -> (r: String)
        ensures
            r@ == summary_text(*self),
    {
        proof {
            reveal_strlit("var: ");
            reveal_strlit(" value: ");
            reveal_strlit("constraint: ");
            reveal_strlit(", domains: [");
            reveal_strlit("]");
            reveal_strlit("var ");
            reveal_strlit(", failed value: ");
        }
        let mut s = String::new();
        match self {
            TraceFrame::Branched { var, value } => {
                s.append("var: ");
                let t = var.render();
                s.append(t.as_str());
                s.append(" value: ");
                crate::term::push_int(&mut s, *value as i64);
            },
            TraceFrame::Constrained { constraint, domains } => {
                s.append("constraint: ");
                s.append(constraint.as_str());
                s.append(", domains: [");
                let ghost head = s@;
                let mut i: usize = 0;
                while i < domains.len()
                    invariant
                        0 <= i <= domains@.len(),
                        s@ == head + pairs_text(domains@.subrange(0, i as int)),
                    decreases domains@.len() - i,
                {
                    proof {
                        reveal_strlit(", ");
                        reveal_strlit("(");
                        reveal_strlit(")");
                    }
                    let ghost before = s@;
                    if i > 0 {
                        s.append(", ");
                    }
                    s.append("(");
                    let t = domains[i].0.render();
                    s.append(t.as_str());
                    s.append(", ");
                    let d = domains[i].1.render();
                    s.append(d.as_str());
                    s.append(")");
                    proof {
                        let p = domains@.subrange(0, i + 1);
                        assert(p.drop_last() =~= domains@.subrange(0, i as int));
                        assert(p.last() == domains@[i as int]);
                        let last = seq!['('] + term_text(p.last().0) + seq![',', ' '] + domain_text(
                            p.last().1,
                        ) + seq![')'];
                        if i > 0 {
                            assert(s@ =~= before + seq![',', ' '] + last);
                        } else {
                            assert(s@ =~= before + last);
                        }
                        assert(s@ =~= head + pairs_text(p));
                    }
                    i = i + 1;
                }
                assert(domains@.subrange(0, domains@.len() as int) =~= domains@);
                proof {
                    reveal_strlit("]");
                }
                s.append("]");
            },
            TraceFrame::Backtracked { var, failed_value } => {
                s.append("var ");
                let t = var.render();
                s.append(t.as_str());
                s.append(", failed value: ");
                crate::term::push_int(&mut s, *failed_value as i64);
            },
        }
        assert(s@ =~= summary_text(*self));
        s
    }
}

} // verus!
