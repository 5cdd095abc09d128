//! Splitting a whole input line into stages and parsing each of them.
use vstd::prelude::*;
use vstd::string::*;
use crate::directive::{Directive, ParseError, Stage, is_blank, parse_segment};

verus! {

/// The text without its leading blanks.
pub open spec fn trim_start(s: Seq<char>) -> Seq<char>
    decreases s.len(),
{
    if s.len() > 0 && is_blank(s[0]) {
        trim_start(s.drop_first())
    } else {
        s
    }
}

/// The text without its trailing blanks.
pub open spec fn trim_end(s: Seq<char>) -> Seq<char>
    decreases s.len(),
{
    if s.len() > 0 && is_blank(s.last()) {
        trim_end(s.drop_last())
    } else {
        s
    }
}

/// The text without the blanks (Unicode White_Space) at either end.
pub open spec fn trimmed(s: Seq<char>) -> Seq<char> {
    trim_end(trim_start(s))
}

/// Relies on `str::trim`: the text without the leading and trailing
/// characters of Unicode's White_Space property.
#[verifier::external_body]
fn trim_text(s: &str) -> (r: &str)
    ensures
        r@ == trimmed(s@),
{
    s.trim()
}

/// The pieces of `s` between the `|` characters, in order.
pub open spec fn split_bars(s: Seq<char>) -> Seq<Seq<char>>
    decreases s.len(),
{
    if s.len() == 0 {
        seq![Seq::empty()]
    } else {
        let p = split_bars(s.drop_last());
        if s.last() == '|' {
            p.push(Seq::empty())
        } else {
            p.update(p.len() - 1, p.last().push(s.last()))
        }
    }
}

proof fn lemma_split_nonempty(s: Seq<char>)
    ensures
        split_bars(s).len() >= 1,
    decreases s.len(),
{
    if s.len() > 0 {
        lemma_split_nonempty(s.drop_last());
    }
}

/// Each segment parsed after trimming; the first failure wins.
pub open spec fn parse_segments(segs: Seq<Seq<char>>) -> Result<Seq<Stage>, ParseError>
    decreases segs.len(),
{
    if segs.len() == 0 {
        Ok(Seq::empty())
    } else {
        match parse_segments(segs.drop_last()) {
            Err(e) => Err(e),
            Ok(ds) => match parse_segment(trimmed(segs.last())) {
                Err(e) => Err(e),
                Ok(d) => Ok(ds.push(d)),
            },
        }
    }
}

proof fn lemma_parse_segments_len(segs: Seq<Seq<char>>)
    ensures
        parse_segments(segs) is Ok ==> parse_segments(segs)->Ok_0.len() == segs.len(),
    decreases segs.len(),
{
    if segs.len() > 0 {
        lemma_parse_segments_len(segs.drop_last());
    }
}

/// What a whole line gives: the trimmed line split on `|`, each piece parsed.
pub open spec fn parse_line(s: Seq<char>) -> Result<Seq<Stage>, ParseError> {
    parse_segments(split_bars(trimmed(s)))
}

/// Splits `s` on `|`.
pub fn split_pipes(s: &str) -> (r: Vec<&str>)
    ensures
        r@.map_values(|p: &str| p@) == split_bars(s@),
{
    let n = s.unicode_len();
    let mut parts: Vec<&str> = Vec::new();
    let mut start: usize = 0;
    let mut i: usize = 0;
    proof {
        assert(s@.take(0) =~= Seq::<char>::empty());
        assert(s@.subrange(0, 0) =~= Seq::<char>::empty());
    }
    while i < n
        invariant
            n == s@.len(),
            start <= i <= n,
            parts@.map_values(|p: &str| p@).push(s@.subrange(start as int, i as int)) == split_bars(
                s@.take(i as int),
            ),
        decreases n - i,
    {
        let c = s.get_char(i);
        let ghost before = parts@.map_values(|p: &str| p@);
        proof {
            assert(s@.take(i + 1).drop_last() =~= s@.take(i as int));
        }
        let ghost old_start = start;
        if c == '|' {
            parts.push(s.substring_char(start, i));
            start = i + 1;
            proof {
                assert(parts@.map_values(|p: &str| p@) =~= before.push(s@.subrange(old_start as int, i as int)));
                assert(s@.subrange(start as int, i + 1) =~= Seq::<char>::empty());
            }
        } else {
            proof {
                assert(s@.subrange(start as int, i + 1) =~= s@.subrange(start as int, i as int).push(c));
                assert(before.push(s@.subrange(start as int, i + 1)) =~= before.push(
                    s@.subrange(start as int, i as int),
                ).update(before.len() as int, s@.subrange(start as int, i as int).push(c)));
            }
        }
        i = i + 1;
    }
    parts.push(s.substring_char(start, n));
    proof {
        assert(s@.take(n as int) =~= s@);
        assert(parts@.map_values(|p: &str| p@) =~= parts@.drop_last().map_values(|p: &str| p@).push(
            s@.subrange(start as int, n as int),
        ));
    }
    parts
}

pub open spec fn trim_all(segs: Seq<Seq<char>>) -> Seq<Seq<char>> {
    segs.map_values(|p: Seq<char>| trimmed(p))
}

/// The segments of a line: the line trimmed, split on `|`, and each piece
/// trimmed.
pub fn segments(line: &str) -> (r: Vec<&str>)
    ensures
        r@.map_values(|p: &str| p@) == trim_all(split_bars(trimmed(line@))),
{
    let t = trim_text(line);
    let parts = split_pipes(t);
    let ghost raw = split_bars(t@);
    assert(parts@.map_values(|p: &str| p@).len() == parts.len());
    let mut out: Vec<&str> = Vec::new();
    let mut i: usize = 0;
    proof {
        assert(out@.map_values(|p: &str| p@) =~= trim_all(raw.take(0)));
    }
    while i < parts.len()
        invariant
            parts@.map_values(|p: &str| p@) == raw,
            parts.len() == raw.len(),
            out.len() == i,
            i <= parts.len(),
            out@.map_values(|p: &str| p@) == trim_all(raw.take(i as int)),
        decreases parts.len() - i,
    {
        let ghost before = out@.map_values(|p: &str| p@);
        proof {
            assert(raw[i as int] == parts@[i as int]@);
        }
        out.push(trim_text(parts[i]));
        proof {
            assert(raw.take(i + 1) =~= raw.take(i as int).push(raw[i as int]));
            assert(out@.map_values(|p: &str| p@) =~= before.push(trimmed(raw[i as int])));
            assert(out@.map_values(|p: &str| p@) =~= trim_all(raw.take(i + 1)));
        }
        i = i + 1;
    }
    proof {
        assert(raw.take(parts.len() as int) =~= raw);
    }
    out
}

/// Parses a whole line into the stages of a pipeline. A failure in any
/// segment fails the whole line.
pub fn process_input(s: &str) -> (r: Result<Vec<Directive>, ParseError>)
    ensures
        match r {
            Ok(ds) => parse_line(s@) == Ok::<Seq<Stage>, ParseError>(ds@.map_values(|d: Directive| d@)),
            Err(e) => parse_line(s@) == Err::<Seq<Stage>, ParseError>(e),
        },
        r is Ok ==> r->Ok_0.len() >= 1,
{
    let parts = segments(s);
    let ghost segs = split_bars(trimmed(s@));
    let mut out: Vec<Directive> = Vec::new();
    let mut i: usize = 0;
    proof {
        lemma_split_nonempty(trimmed(s@));
        assert(parts@.map_values(|p: &str| p@).len() == parts@.len());
        assert(trim_all(segs).len() == segs.len());
        assert(segs.take(0) =~= Seq::<Seq<char>>::empty());
        assert(out@.map_values(|d: Directive| d@) =~= Seq::<Stage>::empty());
    }
    while i < parts.len()
        invariant
            parts@.map_values(|p: &str| p@) == trim_all(segs),
            segs == split_bars(trimmed(s@)),
            parts.len() == segs.len(),
            i <= parts.len(),
            parse_segments(segs.take(i as int)) == Ok::<Seq<Stage>, ParseError>(
                out@.map_values(|d: Directive| d@),
            ),
            out.len() == i,
        decreases parts.len() - i,
    {
        proof {
            assert(segs.take(i + 1).drop_last() =~= segs.take(i as int));
            assert(parts@.map_values(|p: &str| p@)[i as int] == parts@[i as int]@);
            assert(trim_all(segs)[i as int] == trimmed(segs[i as int]));
        }
        match Directive::parse(parts[i]) {
            Ok(d) => {
                let ghost before = out@.map_values(|d: Directive| d@);
                out.push(d);
                proof {
                    assert(out@.map_values(|d: Directive| d@) =~= before.push(out@[i as int]@));
                }
            },
            Err(e) => {
                proof {
                    lemma_failure_sticks(segs, i as int + 1);
                }
                return Err(e);
            },
        }
        i = i + 1;
    }
    proof {
        assert(segs.take(parts.len() as int) =~= segs);
    }
    Ok(out)
}

proof fn lemma_failure_sticks(segs: Seq<Seq<char>>, k: int)
    requires
        0 <= k <= segs.len(),
        parse_segments(segs.take(k)) is Err,
    ensures
        parse_segments(segs) == parse_segments(segs.take(k)),
    decreases segs.len() - k,
{
    if k == segs.len() {
        assert(segs.take(k) =~= segs);
    } else {
        assert(segs.take(k + 1).drop_last() =~= segs.take(k));
        lemma_failure_sticks(segs, k + 1);
    }
}

} // verus!
