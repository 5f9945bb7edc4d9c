use vstd::prelude::*;

verus! {

/// The parts joined with `sep` between each two neighbours.
pub open spec fn join(parts: Seq<Seq<char>>, sep: Seq<char>) -> Seq<char>
    decreases parts.len(),
{
    if parts.len() == 0 {
        Seq::empty()
    } else if parts.len() == 1 {
        parts[0]
    } else {
        join(parts.drop_last(), sep) + sep + parts.last()
    }
}

/// Joining one more part adds it after a separator, or alone on an empty list.
pub proof fn lemma_join_push(parts: Seq<Seq<char>>, x: Seq<char>, sep: Seq<char>)
    ensures
        join(parts.push(x), sep) == if parts.len() == 0 {
            x
        } else {
            join(parts, sep) + sep + x
        },
{
    assert(parts.push(x).drop_last() =~= parts);
}

/// Appends `part` to `acc`, after `sep` unless it is the first part.
pub fn append_part(acc: &mut String, part: &str, sep: &str, first: bool)
    ensures
        final(acc)@ == if first {
            old(acc)@ + part@
        } else {
            old(acc)@ + sep@ + part@
        },
{
    if !first {
        acc.append(sep);
    }
    acc.append(part);
}

} // verus!
