//! The command-line tool without its input and output: what to convert,
//! where the result goes, and whether it is pretty-printed on the way.
use std::str::FromStr;
use vstd::prelude::*;
use vstd::string::StringExecFns;
use crate::converter::{spec_convert, text_outcome, AbxToXmlConverter};
use crate::error::{AbxError, SpecAbxError};

verus! {

/// The arguments of one invocation, as the command line gave them.
#[derive(Clone, Debug, PartialEq, Eq)]
pub struct CliArgs {
    /// The path of the input; `-` stands for the standard input.
    pub input: String,
    /// The path of the output, if one was given; `-` stands for the standard output.
    pub output: Option<String>,
    /// Whether the output replaces the input file.
    pub in_place: bool,
    /// Whether the XML is left as the converter wrote it.
    pub no_format: bool,
}

/// An XML text, and what to tell the user about it.
#[derive(Clone, Debug, PartialEq, Eq)]
pub struct Formatted {
    pub text: String,
    /// Set where the text could not be pretty-printed and is unchanged.
    pub warning: Option<String>,
}

/// What one invocation produces: the text, where to write it, and what to
/// tell the user.
#[derive(Clone, Debug, PartialEq, Eq)]
pub struct Output {
    /// The path to write to; `-` stands for the standard output.
    pub path: String,
    pub content: String,
    pub warning: Option<String>,
}

/// What the arguments are.
pub struct SpecArgs {
    pub input: Seq<char>,
    pub output: Option<Seq<char>>,
    pub in_place: bool,
    pub no_format: bool,
}

impl View for CliArgs {
    type V = SpecArgs;

    open spec fn view(&self) -> SpecArgs {
        SpecArgs {
            input: self.input@,
            output: optional_view(self.output),
            in_place: self.in_place,
            no_format: self.no_format,
        }
    }
}

/// What a formatted text is.
pub struct SpecFormatted {
    pub text: Seq<char>,
    pub warning: Option<Seq<char>>,
}

/// What an output is.
pub struct SpecOutput {
    pub path: Seq<char>,
    pub content: Seq<char>,
    pub warning: Option<Seq<char>>,
}

/// The view of an optional string.
pub open spec fn optional_view(text: Option<String>) -> Option<Seq<char>> {
    match text {
        Some(s) => Some(s@),
        None => None,
    }
}

impl View for Formatted {
    type V = SpecFormatted;

    open spec fn view(&self) -> SpecFormatted {
        SpecFormatted { text: self.text@, warning: optional_view(self.warning) }
    }
}

impl View for Output {
    type V = SpecOutput;

    open spec fn view(&self) -> SpecOutput {
        SpecOutput {
            path: self.path@,
            content: self.content@,
            warning: optional_view(self.warning),
        }
    }
}

/// What `xmlem` makes of an XML text: the document parsed from it and
/// printed with the default pretty configuration, or the text of the error
/// with which the parser refused it.
pub uninterp spec fn pretty_xml(xml: Seq<char>) -> Result<Seq<char>, Seq<char>>;

/// The views of the two texts that the pretty-printer can return.
pub open spec fn pretty_views(r: Result<String, String>) -> Result<Seq<char>, Seq<char>> {
    match r {
        Ok(text) => Ok(text@),
        Err(reason) => Err(reason@),
    }
}

/// Parses `xml` and prints it again, indented.
///
/// Calls `xmlem::Document::from_str` and, on the document it returns,
/// `xmlem::Document::to_string_pretty`; an error is handed on as its
/// `Display` text. Believed of them: what comes back depends on the text alone.
#[verifier::external_body]
fn pretty_print(xml: &str) -> (r: Result<String, String>)
    ensures
        pretty_views(r) == pretty_xml(xml@),
{
    match xmlem::Document::from_str(xml) {
        Ok(document) => Ok(document.to_string_pretty()),
        Err(e) => Err(e.to_string()),
    }
}

/// The warning for a text that the pretty-printer refused for `reason`.
pub open spec fn format_warning(reason: Seq<char>) -> Seq<char> {
    "Warning: Failed to format XML ("@ + reason + "), returning unformatted"@
}

/// What becomes of `xml` given what the pretty-printer made of it: its
/// result where there is one, and else `xml` itself with a warning.
pub open spec fn spec_formatted(xml: Seq<char>, pretty: Result<Seq<char>, Seq<char>>) -> SpecFormatted {
    match pretty {
        Ok(text) => SpecFormatted { text, warning: None },
        Err(reason) => SpecFormatted { text: xml, warning: Some(format_warning(reason)) },
    }
}

/// The message of an in-place conversion whose input is the standard input.
pub open spec fn in_place_stdin_message() -> Seq<char> {
    "Cannot use -i option with stdin input"@
}

/// Whether the arguments ask for what cannot be done: to overwrite the
/// standard input.
pub open spec fn refused(matches: SpecArgs) -> bool {
    matches.in_place && matches.input == "-"@
}

/// Where the output goes: to the path given; with none given, over the
/// input where that was asked for, and else to the standard output.
pub open spec fn spec_output_path(matches: SpecArgs) -> Seq<char> {
    match matches.output {
        Some(path) => path,
        None => if matches.in_place {
            matches.input
        } else {
            "-"@
        },
    }
}

/// The text of the output given the XML of the input: the XML itself where
/// formatting is switched off, what the pretty-printer makes of it otherwise.
pub open spec fn spec_content(matches: SpecArgs, xml: Seq<char>) -> SpecFormatted {
    if matches.no_format {
        SpecFormatted { text: xml, warning: None }
    } else {
        spec_formatted(xml, pretty_xml(xml))
    }
}

/// What one invocation produces from its arguments and the bytes of its input.
pub open spec fn spec_run(matches: SpecArgs, input: Seq<u8>) -> Result<SpecOutput, SpecAbxError> {
    if refused(matches) {
        Err(SpecAbxError::ParseError(in_place_stdin_message()))
    } else {
        match spec_convert(input) {
            Err(e) => Err(e),
            Ok(xml) => {
                let formatted = spec_content(matches, xml);
                Ok(
                    SpecOutput {
                        path: spec_output_path(matches),
                        content: formatted.text,
                        warning: formatted.warning,
                    },
                )
            },
        }
    }
}

/// The view of an output or an error.
pub open spec fn output_outcome(r: Result<Output, AbxError>) -> Result<SpecOutput, SpecAbxError> {
    match r {
        Ok(output) => Ok(output@),
        Err(e) => Err(e@),
    }
}

/// The view of a formatted text or an error.
pub open spec fn formatted_outcome(r: Result<Formatted, AbxError>) -> Result<
    SpecFormatted,
    SpecAbxError,
> {
    match r {
        Ok(formatted) => Ok(formatted@),
        Err(e) => Err(e@),
    }
}

/// The command-line tool.
pub struct Cli;

impl Cli {
    /// Decides where the output goes, and refuses to overwrite the standard input.
    pub fn output_path(matches: &CliArgs) -> (r: Result<String, AbxError>)
        ensures
            text_outcome(r) == (if refused(matches@) {
                Err::<Seq<char>, SpecAbxError>(SpecAbxError::ParseError(in_place_stdin_message()))
            } else {
                Ok::<Seq<char>, SpecAbxError>(spec_output_path(matches@))
            }),
    {
        let dash = "-".to_owned();
        if matches.in_place && matches.input == dash {
            return Err(AbxError::ParseError("Cannot use -i option with stdin input".to_owned()));
        }
        match &matches.output {
            Some(path) => Ok(path.clone()),
            None => if matches.in_place {
                Ok(matches.input.clone())
            } else {
                Ok(dash)
            },
        }
    }

    /// Converts the bytes of the input to XML text.
    pub fn convert_to_xml_string(input: &[u8]) -> (r: Result<String, AbxError>)
        ensures
            text_outcome(r) == spec_convert(input@),
    {
        AbxToXmlConverter::convert_bytes(input)
    }

    /// Settles what becomes of `xml` once the pretty-printer has answered:
    /// its result where it gave one, and else `xml` unchanged with a warning
    /// that holds its reason.
    pub fn formatted(xml: &str, pretty: Result<String, String>) -> (formatted: Formatted)
        ensures
            formatted@ == spec_formatted(xml@, pretty_views(pretty)),
    {
        match pretty {
            Ok(text) => Formatted { text, warning: None },
            Err(reason) => {
                let mut warning = "Warning: Failed to format XML (".to_owned();
                warning.append(reason.as_str());
                warning.append("), returning unformatted");
                Formatted { text: xml.to_owned(), warning: Some(warning) }
            },
        }
    }

    /// Pretty-prints `xml`. A text that the pretty-printer refuses comes
    /// back unchanged, with a warning; this never fails.
    pub fn format_xml(xml: &str) -> (r: Result<Formatted, AbxError>)
        ensures
            formatted_outcome(r) == Ok::<SpecFormatted, SpecAbxError>(
                spec_formatted(xml@, pretty_xml(xml@)),
            ),
    {
        Ok(Self::formatted(xml, pretty_print(xml)))
    }

    /// One invocation, from the parsed arguments and the bytes of the input
    /// to the text and the path to write it to.
    pub fn run_with_matches(matches: &CliArgs, input: &[u8]) -> (r: Result<Output, AbxError>)
        ensures
            output_outcome(r) == spec_run(matches@, input@),
    {
        let path = Self::output_path(matches)?;
        let xml = Self::convert_to_xml_string(input)?;
        let formatted = if matches.no_format {
            Formatted { text: xml, warning: None }
        } else {
            Self::format_xml(xml.as_str())?
        };
        Ok(Output { path, content: formatted.text, warning: formatted.warning })
    }

    /// One invocation, from the values of the arguments and the bytes of
    /// the input to the text and the path to write it to.
    pub fn run(
        input_path: &str,
        output_path: Option<&str>,
        in_place: bool,
        no_format: bool,
        input: &[u8],
    ) -> (r: Result<Output, AbxError>)
        ensures
            output_outcome(r) == spec_run(
                (SpecArgs {
                    input: input_path@,
                    output: match output_path {
                        Some(path) => Some(path@),
                        None => None,
                    },
                    in_place,
                    no_format,
                }),
                input@,
            ),
    {
        let output = match output_path {
            Some(path) => Some(path.to_owned()),
            None => None,
        };
        let matches = CliArgs { input: input_path.to_owned(), output, in_place, no_format };
        Self::run_with_matches(&matches, input)
    }
}

} // verus!
