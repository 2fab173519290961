//! What query files promise: what is written is read back.

use vstd::prelude::*;
use vstd::arithmetic::div_mod;
use vstd::arithmetic::power;
use crate::crud_model::crud_operation::CRUDOperation;
use crate::record_model::{Key, Payload};
use crate::workload::query;

verus! {

/// Division by a power of 256, a byte at a time.
proof fn lemma_next_digit(key: int, i: nat)
    requires
        0 <= key,
    ensures
        power::pow(256, i) > 0,
        power::pow(256, i + 1) == 256 * power::pow(256, i),
        key / power::pow(256, i + 1) == (key / 256) / power::pow(256, i),
{
    power::lemma_pow_positive(256, i);
    reveal(power::pow);
    div_mod::lemma_div_denominator(key, 256, power::pow(256, i));
}

/// Each byte is a digit of the number to the base 256, the first one that of the ones.
pub proof fn law_bytes_are_digits(s: Seq<u8>, i: int)
    requires
        0 <= i < s.len(),
    ensures
        (query::little_endian(s) as int / power::pow(256, i as nat)) % 256 == s[i],
    decreases s.len(),
{
    let rest = query::little_endian(s.drop_first()) as int;
    let first = s[0] as int;
    assert((first + 256 * rest) % 256 == first && (first + 256 * rest) / 256 == rest);
    if i == 0 {
        power::lemma_pow0(256);
        assert(query::little_endian(s) as int / 1 == query::little_endian(s));
    } else {
        lemma_next_digit(query::little_endian(s) as int, (i - 1) as nat);
        law_bytes_are_digits(s.drop_first(), i - 1);
        assert(s.drop_first()[i - 1] == s[i]);
    }
}

/// The number that some bytes stand for is the sum of the bytes, each one weighted by 256 to the
/// power of its position.
pub proof fn law_number_is_a_weighted_sum(s: Seq<u8>)
    requires
        s.len() > 0,
    ensures
        query::little_endian(s) == query::little_endian(s.drop_last()) + s.last() * power::pow(
            256,
            (s.len() - 1) as nat,
        ),
        s.len() == 1 ==> query::little_endian(s) == s[0],
    decreases s.len(),
{
    reveal_with_fuel(query::little_endian, 3);
    if s.len() == 1 {
        power::lemma_pow0(256);
    } else {
        let t = s.drop_first();
        law_number_is_a_weighted_sum(t);
        assert(t.drop_last() =~= s.drop_last().drop_first());
        assert(t.last() == s.last());
        assert(s.drop_last()[0] == s[0]);
        lemma_next_digit(0, (t.len() - 1) as nat);
        let (last, p) = (s.last() as int, power::pow(256, (t.len() - 1) as nat));
        assert(256 * (last * p) == last * (256 * p)) by (nonlinear_arith);
    }
}

/// The digits of a number to the base 256, the ones first, are read back as the number.
pub proof fn law_written_number_is_read_back(s: Seq<u8>, key: nat)
    requires
        key < power::pow(256, s.len()),
        forall|i: int|
            0 <= i < s.len() ==> #[trigger] s[i] == (key as int / power::pow(256, i as nat)) % 256,
    ensures
        query::little_endian(s) == key,
    decreases s.len(),
{
    if s.len() == 0 {
        power::lemma_pow0(256);
    } else {
        let rest = (key / 256) as nat;
        let t = s.drop_first();
        lemma_next_digit(key as int, t.len());
        let p = power::pow(256, t.len());
        assert(key as int / 256 < p) by (nonlinear_arith)
            requires
                key < 256 * p,
        ;
        assert forall|i: int| 0 <= i < t.len() implies #[trigger] t[i] == (rest as int
            / power::pow(256, i as nat)) % 256 by {
            assert(t[i] == s[i + 1]);
            lemma_next_digit(key as int, i as nat);
        }
        law_written_number_is_read_back(t, rest);
        power::lemma_pow0(256);
        assert(key as int / 1 == key);
        assert(s[0] == (key as int / power::pow(256, 0)) % 256);
    }
}

/// As many bytes never stand for the same number twice.
pub proof fn law_different_bytes_are_different_numbers(s: Seq<u8>, t: Seq<u8>)
    requires
        s.len() == t.len(),
        s != t,
    ensures
        query::little_endian(s) != query::little_endian(t),
{
    if query::little_endian(s) == query::little_endian(t) {
        assert forall|i: int| 0 <= i < s.len() implies s[i] == t[i] by {
            law_bytes_are_digits(s, i);
            law_bytes_are_digits(t, i);
        }
        assert(s =~= t);
    }
}

/// Some bytes are a query of a query file: a tag, zero for an insertion, one for an update and
/// two for a deletion, and the digits of the key to the base 256, the ones first.
pub open spec fn written(bytes: Seq<u8>, at: int, tag: int, key: Key) -> bool {
    &&& bytes[at] == tag
    &&& forall|j: int|
        at < j <= at + 8 ==> #[trigger] bytes[j] == (key as int / power::pow(
            256,
            (j - at - 1) as nat,
        )) % 256
}

/// A query file of some queries is read back as these queries, whatever bytes follow that are
/// too few for another one. Insertions and updates write zero.
pub proof fn law_written_queries_are_read_back(
    bytes: Seq<u8>,
    n: nat,
    i: int,
    tag: int,
    key: Key,
)
    requires
        9 * n <= bytes.len() < 9 * n + 9,
        0 <= i < n,
        written(bytes, 9 * i, tag, key),
    ensures
        query::query_count(bytes) == n,
        tag == 0 ==> query::query_at(bytes, i) == Some(CRUDOperation::Insert(key, 0)),
        tag == 1 ==> query::query_at(bytes, i) == Some(CRUDOperation::Update(key, 0)),
        tag == 2 ==> query::query_at(bytes, i) == Some(CRUDOperation::Delete(key)),
        tag > 2 ==> query::query_at(bytes, i) is None,
{
    let s = bytes.subrange(9 * i + 1, 9 * i + 9);
    assert forall|j: int| 0 <= j < s.len() implies #[trigger] s[j] == (key as int / power::pow(
        256,
        j as nat,
    )) % 256 by {
        assert(s[j] == bytes[9 * i + 1 + j]);
    }
    assert(power::pow(256, 8) == 0x1_0000_0000_0000_0000) by {
        reveal(power::pow);
        reveal_with_fuel(power::pow, 9);
    }
    law_written_number_is_read_back(s, key as nat);
}

/// A query is about the key that it names.
pub proof fn law_key_of_a_query(key: Key, payload: Payload)
    ensures
        query::key_of(CRUDOperation::Insert(key, payload)) == key,
        query::key_of(CRUDOperation::Update(key, payload)) == key,
        query::key_of(CRUDOperation::Delete(key)) == key,
        query::is_query(CRUDOperation::Insert(key, payload)),
        query::is_query(CRUDOperation::Update(key, payload)),
        query::is_query(CRUDOperation::Delete(key)),
{
}

/// Every transaction of a query file is a query.
pub proof fn law_query_files_hold_queries(bytes: Seq<u8>, i: int)
    ensures
        query::query_at(bytes, i) matches Some(operation) ==> query::is_query(operation),
        query::query_at(bytes, i) is Some <==> bytes[9 * i] <= 2,
{
}

} // verus!
