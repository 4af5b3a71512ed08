//! How results are presented: formats, and the view each format shows.

use vstd::prelude::*;

verus! {

/// The presentation formats.
#[derive(Debug, Clone, Copy, PartialEq, Eq, Structural)]
pub enum OutputFormat {
    /// Pretty-printed JSON of the flat result.
    PrettyJson,
    /// Compact JSON of the flat result.
    CompactJson,
    /// Endpoints grouped under their parent URLs.
    Hierarchical,
    /// The reconstructed endpoint tree.
    Tree,
}

/// The formats as chosen on a command line.
#[derive(Debug, Clone, Copy, PartialEq, Eq, Structural)]
pub enum OutputFormatArg {
    Pretty,
    Compact,
    Hierarchical,
    Tree,
}

/// The format a command-line choice stands for.
pub open spec fn format_of(arg: OutputFormatArg) -> OutputFormat {
    match arg {
        OutputFormatArg::Pretty => OutputFormat::PrettyJson,
        OutputFormatArg::Compact => OutputFormat::CompactJson,
        OutputFormatArg::Hierarchical => OutputFormat::Hierarchical,
        OutputFormatArg::Tree => OutputFormat::Tree,
    }
}

impl From<OutputFormatArg> for OutputFormat {
    fn from(arg: OutputFormatArg) -> (r: OutputFormat)
        ensures
            r == format_of(arg),
    {
        match arg {
            OutputFormatArg::Pretty => OutputFormat::PrettyJson,
            OutputFormatArg::Compact => OutputFormat::CompactJson,
            OutputFormatArg::Hierarchical => OutputFormat::Hierarchical,
            OutputFormatArg::Tree => OutputFormat::Tree,
        }
    }
}

impl vstd::std_specs::convert::FromSpecImpl<OutputFormatArg> for OutputFormat {
    open spec fn obeys_from_spec() -> bool {
        true
    }

    open spec fn from_spec(arg: OutputFormatArg) -> OutputFormat {
        format_of(arg)
    }
}

/// What goes into the presented result.
#[derive(Debug, Clone, Copy, PartialEq, Eq, Structural)]
pub struct OutputConfig {
    /// The format.
    pub format: OutputFormat,
    /// Whether the counters are included.
    pub include_stats: bool,
    /// Whether the settings are included.
    pub include_config: bool,
    /// Whether the JSON formats group endpoints under their parents.
    pub hierarchical: bool,
}

impl Default for OutputConfig {
    fn default() -> (r: OutputConfig)
        ensures
            r == (OutputConfig {
                format: OutputFormat::PrettyJson,
                include_stats: true,
                include_config: true,
                hierarchical: false,
            }),
    {
        OutputConfig {
            format: OutputFormat::PrettyJson,
            include_stats: true,
            include_config: true,
            hierarchical: false,
        }
    }
}

/// Which view of a result is presented.
#[derive(Debug, Clone, Copy, PartialEq, Eq, Structural)]
pub enum Layout {
    /// The endpoints as found.
    Flat,
    /// Endpoints grouped by parent.
    Hierarchical,
    /// The reconstructed tree.
    Tree,
}

impl OutputConfig {
    /// The view presented: the tree for the tree format; the grouping for the
    /// hierarchical format, or for a JSON format with grouping asked for;
    /// else the flat list.
    pub fn layout(&self) -> (r: Layout)
        ensures
            r == match self.format {
                OutputFormat::Tree => Layout::Tree,
                OutputFormat::Hierarchical => Layout::Hierarchical,
                _ => if self.hierarchical {
                    Layout::Hierarchical
                } else {
                    Layout::Flat
                },
            },
    {
        match self.format {
            OutputFormat::Tree => Layout::Tree,
            OutputFormat::Hierarchical => Layout::Hierarchical,
            _ => if self.hierarchical {
                Layout::Hierarchical
            } else {
                Layout::Flat
            },
        }
    }

    /// Whether JSON is written compactly rather than pretty-printed: only
    /// the compact format, and not for the tree.
    pub fn compact(&self) -> (r: bool)
        ensures
            r == (self.format == OutputFormat::CompactJson),
    {
        match self.format {
            OutputFormat::CompactJson => true,
            _ => false,
        }
    }
}

} // verus!
