//! What stops an install once the config has been accepted.

use vstd::prelude::*;
use crate::text::push_decimal;
use crate::text::decimal;

verus! {

/// Everything the library itself can refuse an install for. Failures of the
/// reads and writes around it belong to whoever performs them.
pub enum InstallError {
    /// A file limine.conf has to name, with a digest, could not be read.
    Read { path: String },
    /// The system profile has no generations, so there is nothing to boot.
    NoGenerations,
    /// Secure boot was requested with keys that have to already exist.
    NoSecureBootKeys,
    /// A Xen EFI entry was asked for without the binary to boot.
    XenWithoutEfiPath { generation: u32 },
    /// sysfs does not say which partition the ESP device is.
    UnknownPartition { path: String },
    /// The ESP is not in the partition table of the disk it sits on.
    NoSuchPartition { path: String, number: u32 },
    /// The disk holding the ESP has no readable partition table, or one whose
    /// entry for the ESP ends before it starts.
    PartitionTable { path: String },
}

pub enum ErrorView {
    Read { path: Seq<char> },
    NoGenerations,
    NoSecureBootKeys,
    XenWithoutEfiPath { generation: u32 },
    UnknownPartition { path: Seq<char> },
    NoSuchPartition { path: Seq<char>, number: u32 },
    PartitionTable { path: Seq<char> },
}

impl View for InstallError {
    type V = ErrorView;

    open spec fn view(&self) -> ErrorView {
        match self {
            InstallError::Read { path } => ErrorView::Read { path: path@ },
            InstallError::NoGenerations => ErrorView::NoGenerations,
            InstallError::NoSecureBootKeys => ErrorView::NoSecureBootKeys,
            InstallError::XenWithoutEfiPath { generation } => ErrorView::XenWithoutEfiPath {
                generation: *generation,
            },
            InstallError::UnknownPartition { path } => ErrorView::UnknownPartition { path: path@ },
            InstallError::NoSuchPartition { path, number } => ErrorView::NoSuchPartition {
                path: path@,
                number: *number,
            },
            InstallError::PartitionTable { path } => ErrorView::PartitionTable { path: path@ },
        }
    }
}

/// How each error is reported.
pub open spec fn error_message(e: ErrorView) -> Seq<char> {
    match e {
        ErrorView::Read { path } => "could not read "@ + path,
        ErrorView::NoGenerations => "the system profile has no generations"@,
        ErrorView::NoSecureBootKeys => "there are no sbctl secure boot keys present; generate some, or enable programs.limine.secureBoot.autoGenerateKeys"@,
        ErrorView::XenWithoutEfiPath { generation } => "generation "@ + decimal(generation as nat)
            + " has a Xen bootspec with no efiPath"@,
        ErrorView::UnknownPartition { path } => "could not work out which partition "@ + path
            + " is"@,
        ErrorView::NoSuchPartition { path, number } => path + " has no partition "@ + decimal(
            number as nat,
        ),
        ErrorView::PartitionTable { path } => "could not read the partition table of "@ + path,
    }
}

impl InstallError {
    pub fn message(&self) -> (r: String)
        ensures
            r@ == error_message(self@),
    {
        let mut r = String::new();
        match self {
            InstallError::Read { path } => {
                r.append("could not read ");
                r.append(path.as_str());
            },
            InstallError::NoGenerations => {
                r.append("the system profile has no generations");
            },
            InstallError::NoSecureBootKeys => {
                r.append(
                    "there are no sbctl secure boot keys present; generate some, or enable programs.limine.secureBoot.autoGenerateKeys",
                );
            },
            InstallError::XenWithoutEfiPath { generation } => {
                r.append("generation ");
                push_decimal(&mut r, *generation as u64);
                r.append(" has a Xen bootspec with no efiPath");
            },
            InstallError::UnknownPartition { path } => {
                r.append("could not work out which partition ");
                r.append(path.as_str());
                r.append(" is");
            },
            InstallError::NoSuchPartition { path, number } => {
                r.append(path.as_str());
                r.append(" has no partition ");
                push_decimal(&mut r, *number as u64);
            },
            InstallError::PartitionTable { path } => {
                r.append("could not read the partition table of ");
                r.append(path.as_str());
            },
        }
        r
    }
}

} // verus!
