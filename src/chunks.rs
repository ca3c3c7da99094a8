use vstd::prelude::*;
use vstd::string::StrSliceExecFns;
use vstd::string::StringExecFns;

verus! {

/// Splits `s` into consecutive pieces of `n` characters; the last piece may
/// be shorter.
pub open spec fn chunks_of(s: Seq<char>, n: nat) -> Seq<Seq<char>>
    decreases s.len(),
{
    if s.len() == 0 || n == 0 {
        seq![]
    } else if s.len() <= n {
        seq![s]
    } else {
        seq![s.subrange(0, n as int)] + chunks_of(s.subrange(n as int, s.len() as int), n)
    }
}

/// The character sequences held by a list of strings.
pub open spec fn views(v: Seq<String>) -> Seq<Seq<char>> {
    v.map_values(|x: String| x@)
}

/// Cuts `source` into pieces of `n` characters each, in order; only the
/// last piece may be shorter.
pub fn cut(source: &str, n: usize) -> (r: Vec<String>)
    requires
        n > 0,
    ensures
        views(r@) == chunks_of(source@, n as nat),
{
    let len = source.unicode_len();
    let mut out: Vec<String> = Vec::new();
    let mut pos: usize = 0;
    proof {
        assert(source@.subrange(0, len as int) =~= source@);
        assert(views(out@) =~= Seq::<Seq<char>>::empty());
        assert(views(out@) + chunks_of(source@, n as nat) =~= chunks_of(source@, n as nat));
    }
    while pos < len
        invariant
            len == source@.len(),
            n > 0,
            pos <= len,
            views(out@) + chunks_of(source@.subrange(pos as int, len as int), n as nat)
                == chunks_of(source@, n as nat),
        decreases len - pos,
    {
        let end: usize = if len - pos <= n { len } else { pos + n };
        let piece = String::from_str(source.substring_char(pos, end));
        proof {
            let rest = source@.subrange(pos as int, len as int);
            assert(rest.subrange(0, (end - pos) as int) =~= source@.subrange(pos as int, end as int));
            assert(rest.subrange((end - pos) as int, rest.len() as int)
                =~= source@.subrange(end as int, len as int));
            if end < len {
                assert(chunks_of(rest, n as nat) == seq![rest.subrange(0, n as int)]
                    + chunks_of(rest.subrange(n as int, rest.len() as int), n as nat));
            } else {
                assert(rest =~= source@.subrange(pos as int, end as int));
                assert(source@.subrange(end as int, len as int) =~= Seq::<char>::empty());
                assert(chunks_of(Seq::<char>::empty(), n as nat) =~= Seq::<Seq<char>>::empty());
            }
        }
        let ghost old_out = out@;
        out.push(piece);
        proof {
            assert(views(out@) =~= views(old_out) + seq![piece@]);
            assert(views(out@) + chunks_of(source@.subrange(end as int, len as int), n as nat)
                =~= views(old_out) + chunks_of(source@.subrange(pos as int, len as int), n as nat));
        }
        pos = end;
    }
    proof {
        assert(source@.subrange(len as int, len as int) =~= Seq::<char>::empty());
        assert(views(out@) + chunks_of(Seq::<char>::empty(), n as nat) =~= views(out@));
    }
    out
}

} // verus!
