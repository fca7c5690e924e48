//! The run's configuration and its construction from plain arguments.

use vstd::prelude::*;

use crate::replace::replace_all;
use crate::replace::replace_seq;

verus! {

/// The file paths one run works with.
pub struct Config {
    /// Path to the address-to-source tool of the toolchain that built the binary.
    pub addr2line_path: String,
    /// Path to the program-header dump tool, derived from `addr2line_path`.
    pub readelf_path: String,
    /// Path to the binary whose addresses the log holds.
    pub elf_file: String,
    /// Path to the raw log.
    pub log_file: String,
    /// Path that receives the annotated output.
    pub output_file: String,
}

/// The annotating run: its configuration, the output gathered so far,
/// and the location text of the line handled last.
pub struct DebuggerVarilator {
    pub config: Config,
    pub output: String,
    pub last_src_line: String,
}

/// The usage text appended to an argument error, naming the program if
/// its name was given.
pub open spec fn help_text(program: Option<String>) -> Seq<char> {
    "\n\tUsage: "@ + (match program {
        Some(p) => p@,
        None => "Debugger"@,
    }) + " <path/to/elf> <path/to/log> [path/to/output]"@
}

/// The default output path: the log path under a `parsed_` prefix.
pub open spec fn default_output(log_file: Seq<char>) -> Seq<char> {
    "parsed_"@ + log_file
}

impl DebuggerVarilator {
    /// Builds a run over the given paths. The header dump tool is
    /// looked for next to the address-to-source tool, under the
    /// conventional name.
    pub fn new(addr2line_path: &str, elf_file: &str, log_file: &str, out_file: &str) -> (dv:
        DebuggerVarilator)
        ensures
            dv.config.addr2line_path@ == addr2line_path@,
            dv.config.readelf_path@ == replace_seq(addr2line_path@, "addr2line"@, "readelf"@),
            dv.config.elf_file@ == elf_file@,
            dv.config.log_file@ == log_file@,
            dv.config.output_file@ == out_file@,
            dv.output@ == Seq::<char>::empty(),
            dv.last_src_line@ == Seq::<char>::empty(),
    {
        proof {
            reveal_strlit("addr2line");
        }
        let readelf_path = replace_all(addr2line_path, "addr2line", "readelf");
        let config = Config {
            addr2line_path: String::from_str(addr2line_path),
            readelf_path,
            elf_file: String::from_str(elf_file),
            log_file: String::from_str(log_file),
            output_file: String::from_str(out_file),
        };
        DebuggerVarilator { config, output: String::new(), last_src_line: String::new() }
    }

    /// Builds a run from command-line arguments handed over as plain
    /// values, in order: program name, binary path, log path, output
    /// path. A missing binary or log path is an error carrying a usage
    /// text; a missing output path falls back to the log path under a
    /// `parsed_` prefix.
    pub fn from_parts(
        addr2line_path: &str,
        program: Option<String>,
        elf_file: Option<String>,
        log_file: Option<String>,
        output_file: Option<String>,
    ) -> (r: Result<DebuggerVarilator, String>)
        ensures
            match r {
                Ok(dv) => {
                    &&& elf_file is Some
                    &&& log_file is Some
                    &&& dv.config.addr2line_path@ == addr2line_path@
                    &&& dv.config.readelf_path@ == replace_seq(
                        addr2line_path@,
                        "addr2line"@,
                        "readelf"@,
                    )
                    &&& dv.config.elf_file@ == elf_file.unwrap()@
                    &&& dv.config.log_file@ == log_file.unwrap()@
                    &&& dv.config.output_file@ == (match output_file {
                        Some(o) => o@,
                        None => default_output(log_file.unwrap()@),
                    })
                    &&& dv.output@ == Seq::<char>::empty()
                    &&& dv.last_src_line@ == Seq::<char>::empty()
                },
                Err(e) => {
                    &&& (elf_file is None || log_file is None)
                    &&& e@ == (if elf_file is None {
                        "Didn't get a elf_file name"@
                    } else {
                        "Didn't get the input log file"@
                    }) + help_text(program)
                },
            },
    {
        let mut help = String::from_str("\n\tUsage: ");
        match &program {
            Some(p) => help.append(p.as_str()),
            None => help.append("Debugger"),
        }
        help.append(" <path/to/elf> <path/to/log> [path/to/output]");

        let elf_file = match elf_file {
            Some(arg) => arg,
            None => {
                let mut e = String::from_str("Didn't get a elf_file name");
                e.append(help.as_str());
                return Err(e);
            },
        };

        let log_file = match log_file {
            Some(arg) => arg,
            None => {
                let mut e = String::from_str("Didn't get the input log file");
                e.append(help.as_str());
                return Err(e);
            },
        };

        let output_file = match output_file {
            Some(arg) => arg,
            None => {
                let mut o = String::from_str("parsed_");
                o.append(log_file.as_str());
                o
            },
        };

        Ok(
            DebuggerVarilator::new(
                addr2line_path,
                elf_file.as_str(),
                log_file.as_str(),
                output_file.as_str(),
            ),
        )
    }
}

} // verus!
