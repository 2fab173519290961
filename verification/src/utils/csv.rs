//! Lines of comma separated values.

use vstd::prelude::*;
use vstd::string::*;

verus! {

/// Some texts with a separator between them.
pub open spec fn joined(fields: Seq<Seq<char>>, separator: Seq<char>) -> Seq<char>
    decreases fields.len(),
{
    if fields.len() == 0 {
        Seq::empty()
    } else if fields.len() == 1 {
        fields[0]
    } else {
        joined(fields.drop_last(), separator) + separator + fields.last()
    }
}

/// What some texts say.
pub open spec fn texts(fields: Seq<String>) -> Seq<Seq<char>> {
    Seq::new(fields.len(), |i: int| fields[i]@)
}

/// Puts a separator between some texts.
pub fn join(fields: &Vec<String>, separator: &str) -> (line: String)
    ensures
        line@ == joined(texts(fields@), separator@),
{
    let mut line = String::new();
    let mut i: usize = 0;
    assert(texts(fields@).take(0) =~= Seq::<Seq<char>>::empty());
    assert(line@ =~= Seq::<char>::empty());
    while i < fields.len()
        invariant
            i <= fields@.len(),
            line@ == joined(texts(fields@).take(i as int), separator@),
        decreases fields@.len() - i,
    {
        if i > 0 {
            line.append(separator);
        }
        line.append(fields[i].as_str());
        proof {
            let t = texts(fields@).take(i + 1);
            assert(t.drop_last() =~= texts(fields@).take(i as int));
            assert(t.last() == fields@[i as int]@);
            assert(line@ =~= joined(t, separator@));
        }
        i = i + 1;
    }
    assert(texts(fields@).take(i as int) =~= texts(fields@));
    line
}

} // verus!
