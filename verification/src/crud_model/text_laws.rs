//! What is written of records and results: their numbers in decimal notation, and nothing is
//! left out.

use vstd::prelude::*;
use crate::crud_model::crud_operation_result;
use crate::crud_model::crud_operation_result::{CRUDOperationInnerReason, CRUDOperationResult};
use crate::locking::locking_strategy::LockingStrategy;
use crate::record_model::record_point::RecordPoint;
use crate::record_model::v_record_point::{RecordInfo, VersionIndexType, VersionedRecordPoint};
use crate::record_model::{Key, Payload, Version};
use crate::utils::laws;

verus! {

/// A record is written with its key and its payload.
pub proof fn law_record_text(
    record: RecordPoint<u64, u64>,
    key: Seq<char>,
    payload: Seq<char>,
)
    requires
        laws::numeral(key, record.key as int),
        laws::numeral(payload, record.payload as int),
    ensures
        record.text() == "RecordPoint(Key: "@ + key + ", Payload: "@ + payload + ")"@,
{
    laws::law_numeral_is_unique(key, record.key as nat);
    laws::law_numeral_is_unique(payload, record.payload as nat);
}

/// A payload is written with the end of its life, or a star if it has none.
pub proof fn law_record_info_text(
    info: RecordInfo<u64>,
    end: Seq<char>,
    payload: Seq<char>,
)
    requires
        info.del_version.version matches Some(v) ==> laws::numeral(end, v as int),
        info.del_version.version is None ==> end == seq!['*'],
        laws::numeral(payload, info.payload as int),
    ensures
        info.text() == "Deleted version: "@ + end + ", Payload: "@ + payload,
{
    laws::law_numeral_is_unique(payload, info.payload as nat);
    match info.del_version.version {
        Some(v) => laws::law_numeral_is_unique(end, v as nat),
        None => {
            reveal_strlit("*");
            assert("*"@ =~= seq!['*']);
        },
    }
}

/// A record with its versions is written with its key and the length of its version index.
pub proof fn law_versioned_record_text(
    record: VersionedRecordPoint,
    key: Seq<char>,
    len: Seq<char>,
)
    requires
        laws::numeral(key, record.key as int),
        laws::numeral(len, record.version_index.size() as int),
    ensures
        record.text() == "RecordPoint(Key: "@ + key + ", VersionList-Len: "@ + len + ")"@,
{
    laws::law_numeral_is_unique(key, record.key as nat);
    laws::law_numeral_is_unique(len, record.version_index.size());
}

/// A result of a writer is written with its key, the payload that it ended and its version.
pub proof fn law_writer_results_text(
    key: Key,
    payload: Payload,
    version: Version,
    k: Seq<char>,
    p: Seq<char>,
    v: Seq<char>,
)
    requires
        laws::numeral(k, key as int),
        laws::numeral(p, payload as int),
        laws::numeral(v, version as int),
    ensures
        CRUDOperationResult::Inserted(key, version).text() == "Inserted(key: "@ + k
            + ", version: "@ + v + ")"@,
        CRUDOperationResult::Updated(key, payload, version).text() == "Updated(key: "@ + k
            + ", payload: "@ + p + ", version: "@ + v + ")"@,
        CRUDOperationResult::Deleted(key, payload, version).text() == "Deleted(key: "@ + k
            + ", payload: "@ + p + ", version: "@ + v + ")"@,
{
    laws::law_numeral_is_unique(k, key as nat);
    laws::law_numeral_is_unique(p, payload as nat);
    laws::law_numeral_is_unique(v, version as nat);
}

/// A result of a reader is written with the record that matched, or with the number of records
/// that matched and a line for each of them, in their order.
pub proof fn law_reader_results_text(
    record: RecordPoint<Key, Payload>,
    records: Vec<RecordPoint<Key, Payload>>,
    len: Seq<char>,
)
    requires
        laws::numeral(len, records@.len() as int),
    ensures
        CRUDOperationResult::MatchedRecord(None).text() =~= "MatchedRecord(None)"@,
        CRUDOperationResult::MatchedRecord(Some(record)).text() == "MatchedRecord("@
            + record.text() + ")"@,
        CRUDOperationResult::MatchedRecords(records).text() == "MatchedRecords[len="@ + len
            + "\n"@ + crud_operation_result::lines(records@) + "]"@,
{
    laws::law_numeral_is_unique(len, records@.len());
    reveal_strlit("MatchedRecord(None)");
    reveal_strlit("MatchedRecord(");
    reveal_strlit("None");
    reveal_strlit(")");
}

/// Records are shown one after the other, each on a line of its own.
pub proof fn law_lines(a: Seq<RecordPoint<Key, Payload>>, b: Seq<RecordPoint<Key, Payload>>)
    ensures
        crud_operation_result::lines(a + b) == crud_operation_result::lines(a)
            + crud_operation_result::lines(b),
        a.len() == 1 ==> crud_operation_result::lines(a) =~= a[0].text() + seq!['\n'],
        a.len() == 0 ==> crud_operation_result::lines(a) =~= Seq::<char>::empty(),
    decreases b.len(),
{
    reveal_with_fuel(crud_operation_result::lines, 2);
    reveal_strlit("\n");
    if b.len() == 0 {
        assert(a + b =~= a);
        assert(crud_operation_result::lines(a) + Seq::<char>::empty()
            =~= crud_operation_result::lines(a));
    } else {
        assert((a + b).drop_last() =~= a + b.drop_last());
        assert((a + b).last() == b.last());
        law_lines(a, b.drop_last());
        assert(crud_operation_result::lines(a + b) =~= crud_operation_result::lines(a)
            + crud_operation_result::lines(b));
    }
}

/// Failures are written as such, with the reason where one is known.
pub proof fn law_failures_text()
    ensures
        CRUDOperationResult::Error.text() == "Error"@,
        CRUDOperationResult::ZeroAffected(CRUDOperationInnerReason::KeyAlreadyDeleted).text()
            == "ZeroAffected(KeyAlreadyDeleted"@,
        CRUDOperationResult::ZeroAffected(CRUDOperationInnerReason::KeyDoesNotExist).text()
            == "ZeroAffected(KeyDoesNotExist)"@,
{
}

/// The name of a strategy tells its attempts.
pub proof fn law_strategy_names(
    strategy: LockingStrategy,
    first: Seq<char>,
    second: Seq<char>,
)
    requires
        strategy matches LockingStrategy::ORWC { attempts } ==> laws::numeral(
            first,
            attempts as int,
        ),
        strategy matches LockingStrategy::HybridLocking { read_attempts } ==> laws::numeral(
            first,
            read_attempts as int,
        ),
        strategy matches LockingStrategy::LightweightHybridLock { read_attempts, write_attempts }
            ==> laws::numeral(first, read_attempts as int) && laws::numeral(
            second,
            write_attempts as int,
        ),
    ensures
        strategy.name() == match strategy {
            LockingStrategy::MonoWriter => "MonoWriter"@,
            LockingStrategy::LockCoupling => "LockCoupling"@,
            LockingStrategy::ORWC { .. } => "ORWC(Attempts="@ + first + ")"@,
            LockingStrategy::OLC => "OLC"@,
            LockingStrategy::LightweightHybridLock { .. } => "LightweightHybridLock(Read="@ + first
                + ";Write="@ + second + ")"@,
            LockingStrategy::HybridLocking { .. } => "HybridLocking(Attempts="@ + first + ")"@,
        },
{
    match strategy {
        LockingStrategy::ORWC { attempts } => {
            laws::law_numeral_is_unique(first, attempts as nat);
        },
        LockingStrategy::HybridLocking { read_attempts } => {
            laws::law_numeral_is_unique(first, read_attempts as nat);
        },
        LockingStrategy::LightweightHybridLock { read_attempts, write_attempts } => {
            laws::law_numeral_is_unique(first, read_attempts as nat);
            laws::law_numeral_is_unique(second, write_attempts as nat);
        },
        _ => {},
    }
}

/// The names of the kinds of version indexes tell them apart.
pub proof fn law_kinds_have_names(a: VersionIndexType, b: VersionIndexType)
    ensures
        a.name() == b.name() ==> a == b,
        a is VWEAVER <==> a.name() == "vWeaver"@,
        a is VANILLA <==> a.name() == "VANILLA"@,
        a is SkipList <==> a.name() == "SkipList"@,
        a is SkipListSynced <==> a.name() == "SkipListSynced"@,
        a is FrugalSkipList <==> a.name() == "FrugalSkipList"@,
        a is BTree <==> a.name() == "BTree"@,
{
    reveal_strlit("vWeaver");
    reveal_strlit("VANILLA");
    reveal_strlit("SkipList");
    reveal_strlit("SkipListSynced");
    reveal_strlit("FrugalSkipList");
    reveal_strlit("BTree");
    assert("vWeaver"@.len() == 7 && "vWeaver"@[0] == 'v');
    assert("VANILLA"@.len() == 7 && "VANILLA"@[0] == 'V');
    assert("SkipList"@.len() == 8);
    assert("SkipListSynced"@.len() == 14 && "SkipListSynced"@[0] == 'S');
    assert("FrugalSkipList"@.len() == 14 && "FrugalSkipList"@[0] == 'F');
    assert("BTree"@.len() == 5);
}

/// Readers validate what they read where the strategy is one of the optimistic lock couplings,
/// with or without a fallback, and lock it elsewhere.
pub proof fn law_optimistic_strategies(strategy: LockingStrategy)
    ensures
        strategy.optimistic() <==> match strategy {
            LockingStrategy::OLC => true,
            LockingStrategy::LightweightHybridLock { .. } => true,
            LockingStrategy::HybridLocking { .. } => true,
            LockingStrategy::ORWC { .. } => false,
            LockingStrategy::LockCoupling => false,
            LockingStrategy::MonoWriter => false,
        },
{
}

} // verus!
