//! How an artifact was recovered and what it is: stage, format, timestamps.

use vstd::prelude::*;

use crate::text::text_eq;

verus! {

#[verifier::external_type_specification]
#[verifier::external_body]
pub struct ExSystemTime(std::time::SystemTime);

/// Timestamps recovered from filesystem metadata. An absent field was not
/// stored or did not survive; none is ever inferred.
#[derive(Clone, Copy, Debug, Default, PartialEq, Eq, PartialOrd, Ord, Hash)]
pub struct Timestamps {
    pub created: Option<std::time::SystemTime>,
    pub modified: Option<std::time::SystemTime>,
}

impl Timestamps {
    /// Whether no timestamp survived.
    pub fn is_empty(&self) -> (r: bool)
        ensures
            r == (self.created is None && self.modified is None),
    {
        self.created.is_none() && self.modified.is_none()
    }
}

/// Pipeline stage that produced a finding, cheapest and most trusted first.
#[derive(Clone, Copy, Debug, PartialEq, Eq, PartialOrd, Ord, Hash, Structural)]
#[non_exhaustive]
pub enum Stage {
    /// Partition tables and the prior-filesystem residue sweep.
    Volumes,
    /// Filesystem metadata recovery over located volumes.
    Filesystem,
    /// Full-surface signature carving.
    Carve,
    /// Reassembly of images stored in pieces.
    Reassembly,
    /// Structural validation, hashing and scoring of candidates.
    Validation,
    /// Writing artifacts and describing each one.
    Report,
    /// Joining later findings onto the written records and writing the
    /// manifest; never a finding's stage.
    Manifest,
}

impl Stage {
    /// The stage's name in reports.
    pub fn name(self) -> (r: &'static str)
        ensures
            r@ == stage_name(self)@,
    {
        match self {
            Stage::Volumes => "volumes",
            Stage::Filesystem => "filesystem",
            Stage::Carve => "carve",
            Stage::Reassembly => "reassembly",
            Stage::Validation => "validation",
            Stage::Report => "report",
            Stage::Manifest => "manifest",
        }
    }
}

/// The name of a stage.
pub open spec fn stage_name(s: Stage) -> &'static str {
    match s {
        Stage::Volumes => "volumes",
        Stage::Filesystem => "filesystem",
        Stage::Carve => "carve",
        Stage::Reassembly => "reassembly",
        Stage::Validation => "validation",
        Stage::Report => "report",
        Stage::Manifest => "manifest",
    }
}

/// Image format of a recovered artifact.
#[derive(Clone, Copy, Debug, PartialEq, Eq, PartialOrd, Ord, Hash, Structural)]
pub enum Format {
    /// JFIF/EXIF JPEG.
    Jpeg,
    /// PNG.
    Png,
}

/// The conventional file extension of a format.
pub open spec fn format_extension(f: Format) -> &'static str {
    match f {
        Format::Jpeg => "jpg",
        Format::Png => "png",
    }
}

/// The name a format is written as, and parsed back from.
pub open spec fn format_name(f: Format) -> &'static str {
    match f {
        Format::Jpeg => "jpeg",
        Format::Png => "png",
    }
}

/// A name that is not one of the formats this tool handles.
#[derive(Clone, Copy, Debug, PartialEq, Eq, Structural)]
pub struct UnknownFormat;

impl UnknownFormat {
    /// What the error says.
    pub fn message(&self) -> (r: &'static str)
        ensures
            r@ == "not an image format this tool recovers"@,
    {
        "not an image format this tool recovers"
    }
}

impl Format {
    /// Conventional file extension for the format.
    pub fn extension(self) -> (r: &'static str)
        ensures
            r@ == format_extension(self)@,
    {
        match self {
            Format::Jpeg => "jpg",
            Format::Png => "png",
        }
    }

    /// The name the format is written as.
    pub fn name(self) -> (r: &'static str)
        ensures
            r@ == format_name(self)@,
    {
        match self {
            Format::Jpeg => "jpeg",
            Format::Png => "png",
        }
    }

    /// Parses the name [`Format::name`] writes.
    pub fn parse(name: &str) -> (r: Result<Format, UnknownFormat>)
        ensures
            name@ == "jpeg"@ ==> r == Ok::<Format, UnknownFormat>(Format::Jpeg),
            name@ == "png"@ ==> r == Ok::<Format, UnknownFormat>(Format::Png),
            name@ != "jpeg"@ && name@ != "png"@ ==> r == Err::<Format, UnknownFormat>(UnknownFormat),
    {
        proof {
            lemma_format_name_round_trip(Format::Jpeg);
        }
        if text_eq(name, "jpeg") {
            Ok(Format::Jpeg)
        } else if text_eq(name, "png") {
            Ok(Format::Png)
        } else {
            Err(UnknownFormat)
        }
    }
}

/// A format survives a round trip through its name: parsing what
/// [`Format::name`] writes gives the format back.
pub proof fn lemma_format_name_round_trip(f: Format)
    ensures
        format_name(f)@ == "jpeg"@ ==> f == Format::Jpeg,
        format_name(f)@ == "png"@ ==> f == Format::Png,
        format_name(f)@ == "jpeg"@ || format_name(f)@ == "png"@,
        "jpeg"@ != "png"@,
{
    reveal_strlit("jpeg");
    reveal_strlit("png");
    assert("jpeg"@.len() == 4);
    assert("png"@.len() == 3);
}

impl std::str::FromStr for Format {
    type Err = UnknownFormat;

    /// Parses the name [`Format::name`] writes, as [`Format::parse`] does.
    fn from_str(name: &str) -> (r: Result<Format, UnknownFormat>)
        ensures
            name@ == "jpeg"@ ==> r == Ok::<Format, UnknownFormat>(Format::Jpeg),
            name@ == "png"@ ==> r == Ok::<Format, UnknownFormat>(Format::Png),
            name@ != "jpeg"@ && name@ != "png"@ ==> r == Err::<Format, UnknownFormat>(UnknownFormat),
    {
        Format::parse(name)
    }
}

} // verus!
