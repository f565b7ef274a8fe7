//! Bank transaction records in three encodings, delimited text, labeled text
//! and binary frames, behind one way of reading and writing them.

use vstd::prelude::*;

pub mod bin_format;
pub mod bin_lemmas;
pub mod common;
pub mod constant;
pub mod csv_format;
pub mod csv_lemmas;
pub mod decimal;
pub mod error;
pub mod fields;
pub mod laws;
pub mod parser;
pub mod record;
pub mod source;
pub mod text;
pub mod txt_format;
pub mod txt_lemmas;
pub mod utf8;

pub use bin_format::{BinParser, YPBankBinRecordParser};
pub use common::{Format, TransactionStatus, TransactionType};
pub use csv_format::{CsvParser, YPBankCsvRecordParser};
pub use error::{ParseError, ParseErrorView};
pub use parser::{Parser, YPBankRecordParser};
pub use record::{YPBankRecord, YPBankRecordView};
pub use source::ByteSource;
pub use txt_format::{TxtParser, YPBankTxtRecordParser};

verus! {

/// What reading a whole stream in `format` makes of `bytes`: the records, or
/// the first error, and how many of the bytes are used up.
pub open spec fn read_all(format: Format, bytes: Seq<u8>) -> (
    Result<Seq<YPBankRecordView>, ParseErrorView>,
    nat,
) {
    match format {
        Format::Csv => parser::read_stream::<YPBankCsvRecordParser, CsvParser>(bytes),
        Format::Txt => parser::read_stream::<YPBankTxtRecordParser, TxtParser>(bytes),
        Format::Bin => parser::read_stream::<YPBankBinRecordParser, BinParser>(bytes),
    }
}

/// The bytes of a whole stream that holds `records` in `format`.
pub open spec fn write_all(format: Format, records: Seq<YPBankRecordView>) -> Seq<u8> {
    match format {
        Format::Csv => parser::write_stream::<YPBankCsvRecordParser, CsvParser>(records),
        Format::Txt => parser::write_stream::<YPBankTxtRecordParser, TxtParser>(records),
        Format::Bin => parser::write_stream::<YPBankBinRecordParser, BinParser>(records),
    }
}

/// Whether `format` has room for `record`. The text encodings have room for
/// every record; a binary frame holds its size in four bytes.
pub open spec fn writable(format: Format, record: YPBankRecordView) -> bool {
    match format {
        Format::Csv => YPBankCsvRecordParser::writable(record),
        Format::Txt => YPBankTxtRecordParser::writable(record),
        Format::Bin => YPBankBinRecordParser::writable(record),
    }
}

/// A unified parser that can read and write bank records in multiple
/// formats: CSV, TXT, and binary.
pub struct CommonParser {
    format: Format,
}

impl CommonParser {
    /// The format that this parser reads and writes.
    pub closed spec fn format(&self) -> Format {
        self.format
    }

    pub fn new(format: Format) -> (parser: Self)
        ensures
            parser.format() == format,
    {
        Self { format }
    }

    /// Reads and parses all records from a source.
    pub fn from_read(&self, r: &mut ByteSource) -> (records: Result<
        Vec<YPBankRecord>,
        ParseError,
    >)
        ensures
            record::records_result_view(records) == read_all(self.format(), old(r)@).0,
            final(r)@ == old(r)@.skip(read_all(self.format(), old(r)@).1 as int),
    {
        match self.format {
            Format::Csv => <CsvParser as Parser<YPBankCsvRecordParser>>::from_read(r),
            Format::Txt => <TxtParser as Parser<YPBankTxtRecordParser>>::from_read(r),
            Format::Bin => <BinParser as Parser<YPBankBinRecordParser>>::from_read(r),
        }
    }

    /// Writes records to a sink in the parser's format.
    pub fn write_to(&self, w: &mut Vec<u8>, records: &Vec<YPBankRecord>) -> (written: Result<
        (),
        ParseError,
    >)
        requires
            forall|i: int|
                0 <= i < records.len() ==> writable(self.format(), #[trigger] records[i]@),
        ensures
            written is Ok,
            final(w)@ == old(w)@ + write_all(self.format(), record::views_of(records@)),
    {
        match self.format {
            Format::Csv => <CsvParser as Parser<YPBankCsvRecordParser>>::write_to(w, records),
            Format::Txt => <TxtParser as Parser<YPBankTxtRecordParser>>::write_to(w, records),
            Format::Bin => <BinParser as Parser<YPBankBinRecordParser>>::write_to(w, records),
        }
    }
}

} // verus!
