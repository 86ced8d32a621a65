//! The table promoter's side of the hand-off: sealed segments handed over by
//! flush instructions. The table write itself happens elsewhere.
use vstd::prelude::*;

verus! {

/// Asks the promoter to take over a sealed segment.
#[derive(Debug, Clone)]
pub struct FlushInstruction {
    pub segment_path: String,
}

/// The promoter: the table it writes and the segments it has taken over.
pub struct IcebergWriter {
    table: String,
    schema: String,
    partition_fields: Vec<String>,
    accepted: Vec<String>,
}

impl IcebergWriter {
    pub closed spec fn table_spec(&self) -> Seq<char> {
        self.table@
    }

    pub closed spec fn schema_spec(&self) -> Seq<char> {
        self.schema@
    }

    pub closed spec fn partition_fields_spec(&self) -> Seq<String> {
        self.partition_fields@
    }

    /// Paths of the segments taken over, in order.
    pub closed spec fn accepted_spec(&self) -> Seq<Seq<char>> {
        self.accepted@.map_values(|s: String| s@)
    }

    pub fn new(table: String, schema: String, partition_fields: Vec<String>) -> (r: Self)
        ensures
            r.table_spec() == table@,
            r.schema_spec() == schema@,
            r.partition_fields_spec() == partition_fields@,
            r.accepted_spec().len() == 0,
    {
        IcebergWriter { table, schema, partition_fields, accepted: Vec::new() }
    }

    /// The log table, partitioned by service and log name.
    pub fn default() -> (r: Self)
        ensures
            r.table_spec() == "log"@,
            r.schema_spec() == "Schema"@,
            r.partition_fields_spec().len() == 2,
            r.partition_fields_spec()[0]@ == "service"@,
            r.partition_fields_spec()[1]@ == "log_name"@,
            r.accepted_spec().len() == 0,
    {
        let partition_fields = vec![String::from_str("service"), String::from_str("log_name")];
        IcebergWriter::new(String::from_str("log"), String::from_str("Schema"), partition_fields)
    }

    pub fn table(&self) -> (r: &String)
        ensures
            r@ == self.table_spec(),
    {
        &self.table
    }

    pub fn partition_fields(&self) -> (r: &Vec<String>)
        ensures
            r@ == self.partition_fields_spec(),
    {
        &self.partition_fields
    }

    /// Takes over the instruction's segment; from here on the promoter owns it.
    pub fn accept_flush(&mut self, instruction: FlushInstruction)
        ensures
            final(self).accepted_spec() == old(self).accepted_spec().push(
                instruction.segment_path@,
            ),
            final(self).table_spec() == old(self).table_spec(),
            final(self).schema_spec() == old(self).schema_spec(),
            final(self).partition_fields_spec() == old(self).partition_fields_spec(),
    {
        let ghost before = self.accepted@;
        self.accepted.push(instruction.segment_path);
        assert(self.accepted@.map_values(|s: String| s@) =~= before.map_values(|s: String| s@).push(
            instruction.segment_path@,
        ));
    }

    /// Paths of the segments taken over, in order.
    pub fn accepted(&self) -> (r: &Vec<String>)
        ensures
            r@.map_values(|s: String| s@) == self.accepted_spec(),
    {
        &self.accepted
    }
}

} // verus!
