//! Error types for the decoder library.
use vstd::prelude::*;

use crate::text::{dec, hex, hex_w, idec, push_dec, push_hex, push_hex_w, push_idec, push_str};

verus! {

/// The class of an I/O failure, as far as the decoder distinguishes them.
#[derive(Debug, Clone, Copy, PartialEq, Eq, Structural)]
pub enum IoKind {
    /// The reading end of an output pipe closed.
    BrokenPipe,
    AlreadyExists,
    NotFound,
    PermissionDenied,
    Other,
}

/// An I/O failure: its class and the operating system's description of it.
#[derive(Debug, Clone, PartialEq, Eq)]
pub struct IoFailure {
    pub kind: IoKind,
    pub message: String,
}

/// The single error type of decoder operations. Paths are carried as text.
#[derive(Debug, Clone, PartialEq, Eq)]
pub enum MieError {
    /// The input file does not exist.
    FileNotFound { path: String },
    /// The input file exists but holds zero bytes.
    FileEmpty { path: String },
    /// File-level I/O failure (open, map, read).
    FileIo { path: String, source: IoFailure },
    /// The Type Word gave an invalid or zero word count.
    InvalidTypeWord { offset: u64, raw_type_word: u16, word_count: u16 },
    /// The Type Word's message type is not a known code.
    UnknownTypeWord { offset: u64, raw_type_word: u16, message_type: u8 },
    /// The record extends beyond the end of the file.
    RecordTruncated { offset: u64, record_bytes: u64, available_bytes: u64 },
    /// The first record found after header detection runs past the end of the file.
    FirstRecordTruncated { offset: u64, record_bytes: u64, available_bytes: u64 },
    /// The payload is inconsistent with the Type Word or Command Word.
    PayloadError { offset: u64, detail: String },
    /// An errored record carries an unrecognized error code.
    UnknownErrorCode { offset: u64, error_code: u16 },
    /// No decodable record within the initial scan window.
    NoValidRecords { path: String, scan_bytes: u64 },
    /// The input is a homogeneous single-byte pad, not a recording.
    HomogeneousPayload { path: String, offset: u64, sample_records: u32 },
    /// The output writer failed.
    WriterError { destination: String, source: IoFailure },
    /// The output path resolves to the input file.
    InputOutputCollision { path: String },
    /// No-clobber is set and the destination exists.
    ClobberRefused { path: String },
    /// Mid-file sync loss that recovery could not reacquire.
    UnrecoverableSyncLoss { offset: u64, sync_losses: u64 },
    /// Timestamp-format auto-detection was ambiguous.
    TimestampFormatMismatch { offset: u64, irig_score: i32, std_score: i32, records_probed: u32 },
    /// A merge input cannot be placed on a common absolute timeline.
    IncompatibleMergeInputs { file_index: usize, path: String, detail: String },
    /// A merge input is not internally time-sorted.
    NonMonotonicInput { file_index: usize, path: String, prev_us: u64, curr_us: u64 },
}

/// Which variant of [`MieError`] occurred.
#[derive(Debug, Clone, Copy, PartialEq, Eq, Structural)]
pub enum MieErrorKind {
    FileNotFound,
    FileEmpty,
    FileIo,
    InvalidTypeWord,
    UnknownTypeWord,
    RecordTruncated,
    FirstRecordTruncated,
    PayloadError,
    UnknownErrorCode,
    NoValidRecords,
    HomogeneousPayload,
    WriterError,
    InputOutputCollision,
    ClobberRefused,
    UnrecoverableSyncLoss,
    TimestampFormatMismatch,
    IncompatibleMergeInputs,
    NonMonotonicInput,
}

/// The kind of an error value.
pub open spec fn spec_kind(e: MieError) -> MieErrorKind {
    match e {
        MieError::FileNotFound { .. } => MieErrorKind::FileNotFound,
        MieError::FileEmpty { .. } => MieErrorKind::FileEmpty,
        MieError::FileIo { .. } => MieErrorKind::FileIo,
        MieError::InvalidTypeWord { .. } => MieErrorKind::InvalidTypeWord,
        MieError::UnknownTypeWord { .. } => MieErrorKind::UnknownTypeWord,
        MieError::RecordTruncated { .. } => MieErrorKind::RecordTruncated,
        MieError::FirstRecordTruncated { .. } => MieErrorKind::FirstRecordTruncated,
        MieError::PayloadError { .. } => MieErrorKind::PayloadError,
        MieError::UnknownErrorCode { .. } => MieErrorKind::UnknownErrorCode,
        MieError::NoValidRecords { .. } => MieErrorKind::NoValidRecords,
        MieError::HomogeneousPayload { .. } => MieErrorKind::HomogeneousPayload,
        MieError::WriterError { .. } => MieErrorKind::WriterError,
        MieError::InputOutputCollision { .. } => MieErrorKind::InputOutputCollision,
        MieError::ClobberRefused { .. } => MieErrorKind::ClobberRefused,
        MieError::UnrecoverableSyncLoss { .. } => MieErrorKind::UnrecoverableSyncLoss,
        MieError::TimestampFormatMismatch { .. } => MieErrorKind::TimestampFormatMismatch,
        MieError::IncompatibleMergeInputs { .. } => MieErrorKind::IncompatibleMergeInputs,
        MieError::NonMonotonicInput { .. } => MieErrorKind::NonMonotonicInput,
    }
}

/// Errors that are an I/O failure on the input itself.
pub open spec fn spec_is_file_kind(k: MieErrorKind) -> bool {
    k == MieErrorKind::FileNotFound || k == MieErrorKind::FileEmpty || k == MieErrorKind::FileIo
}

/// Errors tied to one record's byte offset.
pub open spec fn spec_is_record_kind(k: MieErrorKind) -> bool {
    k == MieErrorKind::InvalidTypeWord || k == MieErrorKind::UnknownTypeWord || k
        == MieErrorKind::RecordTruncated || k == MieErrorKind::FirstRecordTruncated || k
        == MieErrorKind::PayloadError || k == MieErrorKind::UnknownErrorCode || k
        == MieErrorKind::UnrecoverableSyncLoss
}

impl MieError {
    pub fn kind(&self) -> (k: MieErrorKind)
        ensures
            k == spec_kind(*self),
    {
        match self {
            MieError::FileNotFound { .. } => MieErrorKind::FileNotFound,
            MieError::FileEmpty { .. } => MieErrorKind::FileEmpty,
            MieError::FileIo { .. } => MieErrorKind::FileIo,
            MieError::InvalidTypeWord { .. } => MieErrorKind::InvalidTypeWord,
            MieError::UnknownTypeWord { .. } => MieErrorKind::UnknownTypeWord,
            MieError::RecordTruncated { .. } => MieErrorKind::RecordTruncated,
            MieError::FirstRecordTruncated { .. } => MieErrorKind::FirstRecordTruncated,
            MieError::PayloadError { .. } => MieErrorKind::PayloadError,
            MieError::UnknownErrorCode { .. } => MieErrorKind::UnknownErrorCode,
            MieError::NoValidRecords { .. } => MieErrorKind::NoValidRecords,
            MieError::HomogeneousPayload { .. } => MieErrorKind::HomogeneousPayload,
            MieError::WriterError { .. } => MieErrorKind::WriterError,
            MieError::InputOutputCollision { .. } => MieErrorKind::InputOutputCollision,
            MieError::ClobberRefused { .. } => MieErrorKind::ClobberRefused,
            MieError::UnrecoverableSyncLoss { .. } => MieErrorKind::UnrecoverableSyncLoss,
            MieError::TimestampFormatMismatch { .. } => MieErrorKind::TimestampFormatMismatch,
            MieError::IncompatibleMergeInputs { .. } => MieErrorKind::IncompatibleMergeInputs,
            MieError::NonMonotonicInput { .. } => MieErrorKind::NonMonotonicInput,
        }
    }

    /// True for a writer failure whose cause is a closed output pipe.
    pub fn is_broken_pipe(&self) -> (b: bool)
        ensures
            b == (match *self {
                MieError::WriterError { source, .. } => source.kind == IoKind::BrokenPipe,
                _ => false,
            }),
    {
        match self {
            MieError::WriterError { source, .. } => match source.kind {
                IoKind::BrokenPipe => true,
                _ => false,
            },
            _ => false,
        }
    }

    /// True if the input could not be opened, was empty, or could not be read.
    pub fn is_file_error(&self) -> (b: bool)
        ensures
            b == spec_is_file_kind(spec_kind(*self)),
    {
        match self.kind() {
            MieErrorKind::FileNotFound | MieErrorKind::FileEmpty | MieErrorKind::FileIo => true,
            _ => false,
        }
    }

    /// True if the error is tied to a specific record's byte offset.
    pub fn is_record_error(&self) -> (b: bool)
        ensures
            b == spec_is_record_kind(spec_kind(*self)),
    {
        match self.kind() {
            MieErrorKind::InvalidTypeWord
            | MieErrorKind::UnknownTypeWord
            | MieErrorKind::RecordTruncated
            | MieErrorKind::FirstRecordTruncated
            | MieErrorKind::PayloadError
            | MieErrorKind::UnknownErrorCode
            | MieErrorKind::UnrecoverableSyncLoss => true,
            _ => false,
        }
    }

    /// The underlying I/O failure, for the two variants that carry one.
    pub fn source_io(&self) -> (r: Option<&IoFailure>)
        ensures
            r == (match *self {
                MieError::FileIo { source, .. } => Some(&source),
                MieError::WriterError { source, .. } => Some(&source),
                _ => None,
            }),
    {
        match self {
            MieError::FileIo { source, .. } => Some(source),
            MieError::WriterError { source, .. } => Some(source),
            _ => None,
        }
    }
}

/// No error is both file-class and record-class.
pub proof fn lemma_error_classes_disjoint(e: MieError)
    ensures
        !(spec_is_file_kind(spec_kind(e)) && spec_is_record_kind(spec_kind(e))),
{
}

/// The human-readable text of an error.
pub open spec fn error_text(e: MieError) -> Seq<char> {
    match e {
        MieError::FileNotFound { path } => "MIE file not found: "@ + path@,
        MieError::FileEmpty { path } => "MIE file is empty (0 bytes): "@ + path@,
        MieError::FileIo { path, source } => "I/O error on "@ + path@ + ": "@ + source.message@,
        MieError::InvalidTypeWord { offset, raw_type_word, word_count } => "Record error at offset 0x"@ + hex(offset as nat) + ": Invalid Type Word 0x"@ + hex_w(raw_type_word as nat, 4) + " with word_count="@ + dec(word_count as nat) + " (minimum is 5)"@,
        MieError::UnknownTypeWord { offset, raw_type_word, message_type } => "Record error at offset 0x"@ + hex(offset as nat) + ": Unknown message type 0x"@ + hex_w(message_type as nat, 2) + " in Type Word 0x"@ + hex_w(raw_type_word as nat, 4) + ". Known types: 0x01, 0x02, 0x04, 0x08, 0x10, 0x18, 0x20."@,
        MieError::RecordTruncated { offset, record_bytes, available_bytes } => "Record error at offset 0x"@ + hex(offset as nat) + ": Record requires "@ + dec(record_bytes as nat) + " bytes but only "@ + dec(available_bytes as nat) + " bytes remain in file"@,
        MieError::FirstRecordTruncated { offset, record_bytes, available_bytes } => "Record error at offset 0x"@ + hex(offset as nat) + ": First record after header detection is truncated — Type Word declares "@ + dec(record_bytes as nat) + " bytes but only "@ + dec(available_bytes as nat) + " bytes remain in file"@,
        MieError::PayloadError { offset, detail } => "Record error at offset 0x"@ + hex(offset as nat) + ": "@ + detail@,
        MieError::UnknownErrorCode { offset, error_code } => "Record error at offset 0x"@ + hex(offset as nat) + ": Unknown error code 0x"@ + hex_w(error_code as nat, 4) + ". Known DDC codes: 0x011E, 0x0120, 0x0136, 0x0140, 0x0150. Known decoder codes: 0x2000, 0x2001."@,
        MieError::NoValidRecords { path, scan_bytes } => "No valid MIE records found in "@ + path@ + " (scanned first "@ + dec(scan_bytes as nat) + " bytes). The file may not be an MIE recording, or the records may begin past the scan window."@,
        MieError::HomogeneousPayload { path, offset, sample_records } => "Pathological homogeneous-payload input rejected ("@ + path@ + "): the first "@ + dec(sample_records as nat) + " candidate records starting at offset 0x"@ + hex(offset as nat) + " are byte-identical in non-timestamp positions. The file is most likely a single-byte pad (e.g. 0x20-fill), not an MIE recording."@,
        MieError::WriterError { destination, source } => "Failed to write to "@ + destination@ + ": "@ + source.message@,
        MieError::InputOutputCollision { path } => "Output path resolves to the same file as the input ("@ + path@ + "); decoding in-place is unsafe with a memory-mapped reader. Choose a different output path."@,
        MieError::ClobberRefused { path } => "Refusing to overwrite existing file "@ + path@ + " (--no-clobber or output.no_clobber is set). Remove the file or unset the flag to proceed."@,
        MieError::UnrecoverableSyncLoss { offset, sync_losses } => "Unrecoverable mid-file sync loss at offset 0x"@ + hex(offset as nat) + " after "@ + dec(sync_losses as nat) + " recovery attempt(s); the decoder could not reacquire sync within the scan window. Pass --allow-partial to keep what was decoded as a .partial file."@,
        MieError::TimestampFormatMismatch { offset, irig_score, std_score, records_probed } => "Timestamp-format auto-detection is ambiguous starting at offset 0x"@ + hex(offset as nat) + " (IRIG score: "@ + idec(irig_score as int) + ", Standard score: "@ + idec(std_score as int) + " over "@ + dec(records_probed as nat) + " record(s) probed). Pass --time-format irig or --time-format standard to force the choice, or verify the file is actually an MIE recording."@,
        MieError::IncompatibleMergeInputs { file_index, path, detail } => "Cannot time-merge input #"@ + dec(file_index as nat) + " ("@ + path@ + "): "@ + detail@ + ". Multi-file merge requires every input to be calendar-locked IRIG (Standard-format, freerun IRIG, and mixed-format sets cannot be ordered on a common absolute timeline)."@,
        MieError::NonMonotonicInput { file_index, path, prev_us, curr_us } => "merge: input #"@ + dec(file_index as nat) + " ("@ + path@ + ") is not internally time-sorted: timestamp stepped backward (prev_us="@ + dec(prev_us as nat) + " curr_us="@ + dec(curr_us as nat) + "). The time-merge assumes each input is in chronological capture order."@,
    }
}

impl MieError {
    /// The human-readable text of this error.
    pub fn message(&self) -> (s: String)
        ensures
            s@ == error_text(*self),
    {
        let mut s = String::new();
        match self {
            MieError::FileNotFound { path } => {
                push_str(&mut s, "MIE file not found: ");
                push_str(&mut s, path.as_str());
            },
            MieError::FileEmpty { path } => {
                push_str(&mut s, "MIE file is empty (0 bytes): ");
                push_str(&mut s, path.as_str());
            },
            MieError::FileIo { path, source } => {
                push_str(&mut s, "I/O error on ");
                push_str(&mut s, path.as_str());
                push_str(&mut s, ": ");
                push_str(&mut s, source.message.as_str());
            },
            MieError::InvalidTypeWord { offset, raw_type_word, word_count } => {
                push_str(&mut s, "Record error at offset 0x");
                push_hex(&mut s, *offset as u64);
                push_str(&mut s, ": Invalid Type Word 0x");
                push_hex_w(&mut s, *raw_type_word as u64, 4);
                push_str(&mut s, " with word_count=");
                push_dec(&mut s, *word_count as u64);
                push_str(&mut s, " (minimum is 5)");
            },
            MieError::UnknownTypeWord { offset, raw_type_word, message_type } => {
                push_str(&mut s, "Record error at offset 0x");
                push_hex(&mut s, *offset as u64);
                push_str(&mut s, ": Unknown message type 0x");
                push_hex_w(&mut s, *message_type as u64, 2);
                push_str(&mut s, " in Type Word 0x");
                push_hex_w(&mut s, *raw_type_word as u64, 4);
                push_str(&mut s, ". Known types: 0x01, 0x02, 0x04, 0x08, 0x10, 0x18, 0x20.");
            },
            MieError::RecordTruncated { offset, record_bytes, available_bytes } => {
                push_str(&mut s, "Record error at offset 0x");
                push_hex(&mut s, *offset as u64);
                push_str(&mut s, ": Record requires ");
                push_dec(&mut s, *record_bytes as u64);
                push_str(&mut s, " bytes but only ");
                push_dec(&mut s, *available_bytes as u64);
                push_str(&mut s, " bytes remain in file");
            },
            MieError::FirstRecordTruncated { offset, record_bytes, available_bytes } => {
                push_str(&mut s, "Record error at offset 0x");
                push_hex(&mut s, *offset as u64);
                push_str(&mut s, ": First record after header detection is truncated — Type Word declares ");
                push_dec(&mut s, *record_bytes as u64);
                push_str(&mut s, " bytes but only ");
                push_dec(&mut s, *available_bytes as u64);
                push_str(&mut s, " bytes remain in file");
            },
            MieError::PayloadError { offset, detail } => {
                push_str(&mut s, "Record error at offset 0x");
                push_hex(&mut s, *offset as u64);
                push_str(&mut s, ": ");
                push_str(&mut s, detail.as_str());
            },
            MieError::UnknownErrorCode { offset, error_code } => {
                push_str(&mut s, "Record error at offset 0x");
                push_hex(&mut s, *offset as u64);
                push_str(&mut s, ": Unknown error code 0x");
                push_hex_w(&mut s, *error_code as u64, 4);
                push_str(&mut s, ". Known DDC codes: 0x011E, 0x0120, 0x0136, 0x0140, 0x0150. Known decoder codes: 0x2000, 0x2001.");
            },
            MieError::NoValidRecords { path, scan_bytes } => {
                push_str(&mut s, "No valid MIE records found in ");
                push_str(&mut s, path.as_str());
                push_str(&mut s, " (scanned first ");
                push_dec(&mut s, *scan_bytes as u64);
                push_str(&mut s, " bytes). The file may not be an MIE recording, or the records may begin past the scan window.");
            },
            MieError::HomogeneousPayload { path, offset, sample_records } => {
                push_str(&mut s, "Pathological homogeneous-payload input rejected (");
                push_str(&mut s, path.as_str());
                push_str(&mut s, "): the first ");
                push_dec(&mut s, *sample_records as u64);
                push_str(&mut s, " candidate records starting at offset 0x");
                push_hex(&mut s, *offset as u64);
                push_str(&mut s, " are byte-identical in non-timestamp positions. The file is most likely a single-byte pad (e.g. 0x20-fill), not an MIE recording.");
            },
            MieError::WriterError { destination, source } => {
                push_str(&mut s, "Failed to write to ");
                push_str(&mut s, destination.as_str());
                push_str(&mut s, ": ");
                push_str(&mut s, source.message.as_str());
            },
            MieError::InputOutputCollision { path } => {
                push_str(&mut s, "Output path resolves to the same file as the input (");
                push_str(&mut s, path.as_str());
                push_str(&mut s, "); decoding in-place is unsafe with a memory-mapped reader. Choose a different output path.");
            },
            MieError::ClobberRefused { path } => {
                push_str(&mut s, "Refusing to overwrite existing file ");
                push_str(&mut s, path.as_str());
                push_str(&mut s, " (--no-clobber or output.no_clobber is set). Remove the file or unset the flag to proceed.");
            },
            MieError::UnrecoverableSyncLoss { offset, sync_losses } => {
                push_str(&mut s, "Unrecoverable mid-file sync loss at offset 0x");
                push_hex(&mut s, *offset as u64);
                push_str(&mut s, " after ");
                push_dec(&mut s, *sync_losses as u64);
                push_str(&mut s, " recovery attempt(s); the decoder could not reacquire sync within the scan window. Pass --allow-partial to keep what was decoded as a .partial file.");
            },
            MieError::TimestampFormatMismatch { offset, irig_score, std_score, records_probed } => {
                push_str(&mut s, "Timestamp-format auto-detection is ambiguous starting at offset 0x");
                push_hex(&mut s, *offset as u64);
                push_str(&mut s, " (IRIG score: ");
                push_idec(&mut s, *irig_score as i64);
                push_str(&mut s, ", Standard score: ");
                push_idec(&mut s, *std_score as i64);
                push_str(&mut s, " over ");
                push_dec(&mut s, *records_probed as u64);
                push_str(&mut s, " record(s) probed). Pass --time-format irig or --time-format standard to force the choice, or verify the file is actually an MIE recording.");
            },
            MieError::IncompatibleMergeInputs { file_index, path, detail } => {
                push_str(&mut s, "Cannot time-merge input #");
                push_dec(&mut s, *file_index as u64);
                push_str(&mut s, " (");
                push_str(&mut s, path.as_str());
                push_str(&mut s, "): ");
                push_str(&mut s, detail.as_str());
                push_str(&mut s, ". Multi-file merge requires every input to be calendar-locked IRIG (Standard-format, freerun IRIG, and mixed-format sets cannot be ordered on a common absolute timeline).");
            },
            MieError::NonMonotonicInput { file_index, path, prev_us, curr_us } => {
                push_str(&mut s, "merge: input #");
                push_dec(&mut s, *file_index as u64);
                push_str(&mut s, " (");
                push_str(&mut s, path.as_str());
                push_str(&mut s, ") is not internally time-sorted: timestamp stepped backward (prev_us=");
                push_dec(&mut s, *prev_us as u64);
                push_str(&mut s, " curr_us=");
                push_dec(&mut s, *curr_us as u64);
                push_str(&mut s, "). The time-merge assumes each input is in chronological capture order.");
            },
        }
        assert(s@ =~= error_text(*self));
        s
    }
}

} // verus!
