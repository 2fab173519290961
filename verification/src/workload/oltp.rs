//! What is told of a load.

use vstd::prelude::*;
use vstd::string::*;
use crate::record_model::v_record_point::VersionIndexType;
use crate::utils::csv;
use crate::utils::text;

verus! {

/// What is told of a load.
pub struct OltpReport {
    pub is_concurrent: bool,
    pub oltp_threads: usize,
    pub olap_threads: usize,
    pub v_index: VersionIndexType,
    /// How skewed the keys are, as it is written.
    pub skew: String,
    pub gc: bool,
    pub update_in_place: bool,
    pub slice_per_thread: usize,
    pub rest_slice: usize,
    pub blocks_allocated: usize,
    pub blocks_reused: usize,
    pub total_num_scan_tx: usize,
    pub total_num_oltp_tx: usize,
    pub total_oltp_time: u128,
    pub total_olap_time: u128,
}

impl OltpReport {
    /// The values as text.
    pub open spec fn fields(self) -> Seq<Seq<char>> {
        seq![
            text::truth(self.is_concurrent),
            text::decimal(self.oltp_threads as nat),
            text::decimal(self.olap_threads as nat),
            self.v_index.name(),
            self.skew@,
            text::truth(self.gc),
            text::truth(self.update_in_place),
            text::decimal(self.slice_per_thread as nat),
            text::decimal(self.rest_slice as nat),
            text::decimal(self.blocks_allocated as nat),
            text::decimal(self.blocks_reused as nat),
            text::decimal(self.total_num_scan_tx as nat),
            text::decimal(self.total_num_oltp_tx as nat),
            text::decimal(self.total_oltp_time as nat),
            text::decimal(self.total_olap_time as nat),
        ]
    }

    /// Writes the values as a line.
    pub fn csv_line(&self) -> (line: String)
        ensures
            line@ == csv::joined(self.fields(), ","@) + "\n"@,
    {
        let mut fields: Vec<String> = Vec::new();
        fields.push(String::from_str(text::boolean(self.is_concurrent)));
        fields.push(text::number(self.oltp_threads as u64));
        fields.push(text::number(self.olap_threads as u64));
        fields.push(self.v_index.to_string());
        fields.push(self.skew.clone());
        fields.push(String::from_str(text::boolean(self.gc)));
        fields.push(String::from_str(text::boolean(self.update_in_place)));
        fields.push(text::number(self.slice_per_thread as u64));
        fields.push(text::number(self.rest_slice as u64));
        fields.push(text::number(self.blocks_allocated as u64));
        fields.push(text::number(self.blocks_reused as u64));
        fields.push(text::number(self.total_num_scan_tx as u64));
        fields.push(text::number(self.total_num_oltp_tx as u64));
        fields.push(text::wide_number(self.total_oltp_time));
        fields.push(text::wide_number(self.total_olap_time));
        assert(csv::texts(fields@) =~= self.fields());
        let mut line = csv::join(&fields, ",");
        line.append("\n");
        line
    }
}

/// The head of a file of reports.
pub fn oltp_header() -> (line: &'static str)
    ensures
        line@
            == "is_concurrent,oltp_threads,olap_threads,v_index,skew,gc,update_in_place,slice_per_thread,rest_slice,blocks_allocated,blocks_reused,total_num_scan_tx,total_num_oltp_tx,total_oltp_time,total_olap_time\n"@,
{
    "is_concurrent,oltp_threads,olap_threads,v_index,skew,gc,update_in_place,slice_per_thread,rest_slice,blocks_allocated,blocks_reused,total_num_scan_tx,total_num_oltp_tx,total_oltp_time,total_olap_time\n"
}

} // verus!
