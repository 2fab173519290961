//! What command line arguments stand for.

use vstd::prelude::*;
use vstd::string::*;
use crate::record_model::v_record_point::VersionIndexType;

verus! {

/// Whether a name is one of those that a text stands for.
fn is(name: &String, other: &str) -> (r: bool)
    ensures
        r == (name@ == other@),
{
    let other = String::from_str(other);
    *name == other
}

/// The kind of version index that the load command understands by a name.
pub open spec fn load_kind(name: Seq<char>) -> VersionIndexType {
    if name == "sk"@ {
        VersionIndexType::SkipList
    } else if name == "ll"@ {
        VersionIndexType::VANILLA
    } else if name == "fg"@ {
        VersionIndexType::FrugalSkipList
    } else if name == "bt"@ {
        VersionIndexType::BTree
    } else if name == "w"@ {
        VersionIndexType::VWEAVER
    } else {
        VersionIndexType::VANILLA
    }
}

/// The kind of version index that the load command understands by a name.
pub fn parse_load_kind(name: &String) -> (kind: VersionIndexType)
    ensures
        kind == load_kind(name@),
{
    if is(name, "sk") {
        VersionIndexType::SkipList
    } else if is(name, "ll") {
        VersionIndexType::VANILLA
    } else if is(name, "fg") {
        VersionIndexType::FrugalSkipList
    } else if is(name, "bt") {
        VersionIndexType::BTree
    } else if is(name, "w") {
        VersionIndexType::VWEAVER
    } else {
        VersionIndexType::VANILLA
    }
}

/// The kind of version index that the test commands understand by a name.
pub open spec fn test_kind(name: Seq<char>) -> VersionIndexType {
    if name == "l"@ || name == "ll"@ || name == "linkedlists"@ || name == "vanilla"@ {
        VersionIndexType::VANILLA
    } else if name == "sk"@ || name == "skiplist"@ || name == "skiplists"@ {
        VersionIndexType::SkipList
    } else if name == "fg"@ || name == "f"@ || name == "frugallists"@ {
        VersionIndexType::FrugalSkipList
    } else if name == "weaver"@ || name == "vweaver"@ || name == "w"@ {
        VersionIndexType::VWEAVER
    } else {
        VersionIndexType::BTree
    }
}

/// The kind of version index that the test commands understand by a name.
pub fn parse_test_kind(name: &String) -> (kind: VersionIndexType)
    ensures
        kind == test_kind(name@),
{
    if is(name, "l") || is(name, "ll") || is(name, "linkedlists") || is(name, "vanilla") {
        VersionIndexType::VANILLA
    } else if is(name, "sk") || is(name, "skiplist") || is(name, "skiplists") {
        VersionIndexType::SkipList
    } else if is(name, "fg") || is(name, "f") || is(name, "frugallists") {
        VersionIndexType::FrugalSkipList
    } else if is(name, "weaver") || is(name, "vweaver") || is(name, "w") {
        VersionIndexType::VWEAVER
    } else {
        VersionIndexType::BTree
    }
}

/// What is said about hardware lock elision.
pub open spec fn elision_text(elision: bool, x86: bool) -> Seq<char> {
    if !elision {
        "OFF   "@
    } else if x86 {
        "ON    "@
    } else {
        "NO HTL"@
    }
}

/// What is said about hardware lock elision: whether it was asked for, and whether the machine
/// has it.
pub fn hle(elision: bool, x86: bool) -> (text: &'static str)
    ensures
        text@ == elision_text(elision, x86),
{
    if elision {
        if x86 {
            "ON    "
        } else {
            "NO HTL"
        }
    } else {
        "OFF   "
    }
}

/// A text of one character.
spec fn one(a: char) -> Seq<char> {
    seq![a]
}

/// A text of two characters.
spec fn two(a: char, b: char) -> Seq<char> {
    seq![a, b]
}

/// Each kind of version index but the lists has one name for the load command. All other names
/// stand for lists.
pub proof fn law_load_names(name: Seq<char>)
    ensures
        load_kind(name) is SkipList <==> name =~= seq!['s', 'k'],
        load_kind(name) is FrugalSkipList <==> name =~= seq!['f', 'g'],
        load_kind(name) is BTree <==> name =~= seq!['b', 't'],
        load_kind(name) is VWEAVER <==> name =~= seq!['w'],
        !(load_kind(name) is SkipListSynced),
{
    reveal_strlit("sk");
    reveal_strlit("ll");
    reveal_strlit("fg");
    reveal_strlit("bt");
    reveal_strlit("w");
    assert("sk"@ =~= two('s', 'k'));
    assert("ll"@ =~= two('l', 'l'));
    assert("fg"@ =~= two('f', 'g'));
    assert("bt"@ =~= two('b', 't'));
    assert("w"@ =~= one('w'));
    assert(two('s', 'k')[0] != two('f', 'g')[0]);
    assert(two('s', 'k')[0] != two('l', 'l')[0]);
    assert(two('s', 'k')[0] != two('b', 't')[0]);
    assert(two('f', 'g')[0] != two('l', 'l')[0]);
    assert(two('f', 'g')[0] != two('b', 't')[0]);
    assert(two('b', 't')[0] != two('l', 'l')[0]);
    assert(one('w').len() != two('l', 'l').len());
}

/// Each kind of version index but the trees has its names for the test commands. All other names
/// stand for trees.
pub proof fn law_test_names(name: Seq<char>)
    ensures
        test_kind(name) is VANILLA <==> name == "l"@ || name == "ll"@ || name == "linkedlists"@
            || name == "vanilla"@,
        test_kind(name) is SkipList <==> name == "sk"@ || name == "skiplist"@ || name
            == "skiplists"@,
        test_kind(name) is FrugalSkipList <==> name == "fg"@ || name == "f"@ || name
            == "frugallists"@,
        test_kind(name) is VWEAVER <==> name == "w"@ || name == "weaver"@ || name == "vweaver"@,
        !(test_kind(name) is SkipListSynced),
{
    reveal_strlit("l");
    reveal_strlit("ll");
    reveal_strlit("linkedlists");
    reveal_strlit("vanilla");
    reveal_strlit("sk");
    reveal_strlit("skiplist");
    reveal_strlit("skiplists");
    reveal_strlit("fg");
    reveal_strlit("f");
    reveal_strlit("frugallists");
    reveal_strlit("weaver");
    reveal_strlit("vweaver");
    reveal_strlit("w");
    assert("l"@[0] == 'l');
    assert("ll"@[0] == 'l');
    assert("linkedlists"@[0] == 'l');
    assert("vanilla"@[0] == 'v');
    assert("sk"@[0] == 's');
    assert("skiplist"@[0] == 's');
    assert("skiplists"@[0] == 's');
    assert("fg"@[0] == 'f');
    assert("f"@[0] == 'f');
    assert("frugallists"@[0] == 'f');
    assert("weaver"@[0] == 'w');
    assert("vweaver"@[0] == 'v');
    assert("w"@[0] == 'w');
    assert("vanilla"@[1] == 'a');
    assert("vweaver"@[1] == 'w');
}

/// Machines that have lock elision say so where it was asked for, the others that they have
/// none, and nobody says more where it was not.
pub proof fn law_elision(elision: bool, x86: bool)
    ensures
        elision && x86 <==> elision_text(elision, x86) =~= seq!['O', 'N', ' ', ' ', ' ', ' '],
        elision && !x86 <==> elision_text(elision, x86) =~= seq!['N', 'O', ' ', 'H', 'T', 'L'],
        !elision <==> elision_text(elision, x86) =~= seq!['O', 'F', 'F', ' ', ' ', ' '],
{
    reveal_strlit("OFF   ");
    reveal_strlit("ON    ");
    reveal_strlit("NO HTL");
    let t = elision_text(elision, x86);
    assert(t.len() == 6);
    assert(seq!['O', 'N', ' ', ' ', ' ', ' '][1] == 'N');
    assert(seq!['O', 'F', 'F', ' ', ' ', ' '][1] == 'F');
    assert(seq!['N', 'O', ' ', 'H', 'T', 'L'][1] == 'O');
}

} // verus!
