//! Producing records from the command line: which records to send, and
//! what to make of the answers.
//!
//! Reading files and the terminal, and sending, is left to the caller. What
//! is decided here is what the options mean, which records come out of what
//! was read, when to stop, and what to report.

use std::path::PathBuf;
use vstd::prelude::*;
use vstd::string::StringExecFns;
use vstd::utf8::encode_utf8;
use crate::codec::copy_range;
use crate::text::text;

verus! {

#[verifier::external_type_specification]
#[verifier::external_body]
pub struct ExPathBuf(std::path::PathBuf);

/// Produce log configuration parameters
#[derive(Debug, PartialEq, Eq)]
pub struct ProduceLogConfig {
    pub topic: String,
    pub partition: i32,
    pub continuous: bool,
}

/// Where the records are to be read from.
#[derive(Debug, PartialEq, Eq)]
pub enum FileRecord {
    /// Each line of the file is a record.
    Lines(PathBuf),
    /// Each of the files is a record.
    Files(Vec<PathBuf>),
}

/// The options of the command that produces records.
#[derive(Debug, PartialEq, Eq)]
pub struct ProduceLogOpt {
    /// The name of the Topic to produce to
    pub topic: String,
    /// The ID of the Partition to produce to
    pub partition: i32,
    /// Send messages in an infinite loop
    pub continuous: bool,
    /// Send each line of the file as its own Record
    pub record_per_line: Option<PathBuf>,
    /// Send an entire file as a single Record
    pub record_file: Vec<PathBuf>,
}

/// Names and contents of the records to send.
pub type RecordTuples = Vec<(String, Vec<u8>)>;

/// What the file options ask for: the file to read line by line if one is
/// given, else the files to send whole if any are given, else nothing.
pub open spec fn spec_file_records(
    record_per_line: Option<PathBuf>,
    record_file: Vec<PathBuf>,
) -> Option<FileRecord> {
    match record_per_line {
        Some(path) => Some(FileRecord::Lines(path)),
        None => if record_file@.len() > 0 {
            Some(FileRecord::Files(record_file))
        } else {
            None
        },
    }
}

impl ProduceLogOpt {
    /// Validate cli options. Generate target-server and produce log
    /// configuration. `target_server` is the outcome of loading the target
    /// cluster's configuration; its error is handed on.
    pub fn validate<T, E>(self, target_server: Result<T, E>) -> (r: Result<
        (T, (ProduceLogConfig, Option<FileRecord>)),
        E,
    >)
        ensures
            match target_server {
                Err(e) => r == Err::<(T, (ProduceLogConfig, Option<FileRecord>)), E>(e),
                Ok(target) => r == Ok::<(T, (ProduceLogConfig, Option<FileRecord>)), E>(
                    (
                        target,
                        (
                            ProduceLogConfig {
                                topic: self.topic,
                                partition: self.partition,
                                continuous: self.continuous,
                            },
                            spec_file_records(self.record_per_line, self.record_file),
                        ),
                    ),
                ),
            },
    {
        let target = match target_server {
            Ok(target) => target,
            Err(e) => { return Err(e); },
        };
        let file_records = match self.record_per_line {
            Some(record_per_line) => Some(FileRecord::Lines(record_per_line)),
            None => {
                if self.record_file.len() > 0 {
                    Some(FileRecord::Files(self.record_file))
                } else {
                    None
                }
            },
        };
        let produce_log_cfg = ProduceLogConfig {
            topic: self.topic,
            partition: self.partition,
            continuous: self.continuous,
        };
        Ok((target, (produce_log_cfg, file_records)))
    }
}

/// What was read for a `FileRecord`.
#[derive(Debug)]
pub enum FileContents<E> {
    /// Of a file that is read line by line: its first line, the error of
    /// reading it, or nothing if the file is empty.
    FirstLine(Option<Result<String, E>>),
    /// Of files that are sent whole: for each, its path as text, if the path
    /// is text, and its bytes.
    Files(Vec<(Option<String>, Vec<u8>)>),
}

/// The name of a record that is a whole file: the file's path, or `?` where
/// the path is no text.
pub open spec fn spec_record_name(path: Option<String>) -> Seq<char> {
    match path {
        Some(p) => p@,
        None => "?"@,
    }
}

/// The records that come out of what was read.
///
/// Of a file read line by line only the first line becomes a record, under
/// its own text as name; a line that could not be read is passed over. Each
/// whole file becomes a record under the name of its path.
pub open spec fn spec_file_to_records<E>(contents: FileContents<E>) -> Seq<(Seq<char>, Seq<u8>)> {
    match contents {
        FileContents::FirstLine(Some(Ok(line))) => seq![(line@, encode_utf8(line@))],
        FileContents::FirstLine(_) => Seq::empty(),
        FileContents::Files(files) => Seq::new(
            files@.len(),
            |i: int| (spec_record_name(files@[i].0), files@[i].1@),
        ),
    }
}

/// What a list of records stands for.
pub open spec fn records_of(records: Seq<(String, Vec<u8>)>) -> Seq<(Seq<char>, Seq<u8>)> {
    Seq::new(records.len(), |i: int| (records[i].0@, records[i].1@))
}

/// Converts what was read from one or more files into a list of (name,
/// record) touples
pub fn file_to_records<E>(contents: &FileContents<E>) -> (records: RecordTuples)
    ensures
        records_of(records@) == spec_file_to_records(*contents),
{
    let mut records: RecordTuples = Vec::new();
    match contents {
        // lines as records
        FileContents::FirstLine(Some(Ok(line))) => {
            let bytes = line.as_str().as_bytes();
            let record = copy_range(bytes, 0, bytes.len());
            proof {
                assert(bytes@.subrange(0, bytes@.len() as int) =~= bytes@);
            }
            records.push((line.clone(), record));
            proof {
                assert(records_of(records@) =~= spec_file_to_records(*contents));
            }
        },
        FileContents::FirstLine(_) => {
            proof {
                assert(records_of(records@) =~= spec_file_to_records(*contents));
            }
        },
        // files as records
        FileContents::Files(files) => {
            let mut i: usize = 0;
            while i < files.len()
                invariant
                    i <= files.len(),
                    records@.len() == i,
                    forall|j: int|
                        0 <= j < i ==> (#[trigger] records@[j]).0@ == spec_record_name(
                            files@[j].0,
                        ) && records@[j].1@ == files@[j].1@,
                decreases files.len() - i,
            {
                let file_name = match &files[i].0 {
                    Some(p) => p.clone(),
                    None => text("?"),
                };
                let content = files[i].1.as_slice();
                let buffer = copy_range(content, 0, content.len());
                proof {
                    assert(content@.subrange(0, content@.len() as int) =~= content@);
                }
                records.push((file_name, buffer));
                i += 1;
            }
            proof {
                assert(records_of(records@) =~= spec_file_to_records(*contents));
            }
        },
    }
    records
}

/// What to do with what the terminal gave.
#[derive(Debug, PartialEq, Eq)]
pub enum StdinStep<E> {
    /// Send `record`. If `last`, stop after it; else read the next line.
    Send { record: Vec<u8>, last: bool },
    /// Stop: the input has ended, or reading it failed.
    Done(Result<(), E>),
}

/// Dispatch records based on what the terminal gave: a line is sent as a
/// record, and is the last one unless the records are to be sent
/// continuously; the end of the input ends the sending; an error of reading
/// ends it as a failure.
pub fn produce_from_stdin<E>(opt: &ProduceLogConfig, line: Option<Result<String, E>>) -> (r:
    StdinStep<E>)
    ensures
        match line {
            Some(Ok(line_text)) => r matches StdinStep::Send { record, last } && record@
                == encode_utf8(line_text@) && last == !opt.continuous,
            Some(Err(e)) => r == StdinStep::Done(Err::<(), E>(e)),
            None => r == StdinStep::<E>::Done(Ok(())),
        },
{
    match line {
        Some(Ok(line_text)) => {
            let bytes = line_text.as_str().as_bytes();
            let record = copy_range(bytes, 0, bytes.len());
            proof {
                assert(bytes@.subrange(0, bytes@.len() as int) =~= bytes@);
            }
            StdinStep::Send { record, last: !opt.continuous }
        },
        Some(Err(e)) => StdinStep::Done(Err(e)),
        None => StdinStep::Done(Ok(())),
    }
}

/// What to tell the user about a record, and whether to go on.
#[derive(Debug, PartialEq, Eq)]
pub enum RecordReport {
    /// The record was sent: say so.
    Sent,
    /// The record was not sent: print `message` and end the program with
    /// `exit_code`.
    Failed { message: String, exit_code: i32 },
}

/// Process the answer to a record that was sent, for printing success or
/// error.
pub fn process_record(sent: Result<(), String>) -> (r: RecordReport)
    ensures
        match sent {
            Ok(_) => r is Sent,
            Err(err) => r matches RecordReport::Failed { message, exit_code } && message@
                == "error processing record: "@ + err@ && exit_code == -1,
        },
{
    match sent {
        Ok(_) => RecordReport::Sent,
        Err(err) => {
            let mut message = text("error processing record: ");
            message.append(err.as_str());
            RecordReport::Failed { message, exit_code: -1 }
        },
    }
}

} // verus!
