//! The record a source repository ingestion produces for one commit, and the
//! well-formedness that the rest of the engine relies on.

use crate::chars::all_lower_hex;
use crate::chars::str_all_lower_hex;
use crate::text::contains_newline;
use crate::text::no_newline;
use vstd::prelude::*;

verus! {

/// One commit observed in a source repository, with the provenance the
/// mirror records for it. Identity is the commit hash alone; the other
/// fields are descriptive.
pub struct SourceCommit {
    /// The 40-character lowercase hexadecimal commit identifier.
    pub sha: String,
    /// Human-readable origin: the source repository's `origin` remote URL if
    /// configured, else its local path.
    pub source_repo_hint: String,
    /// A web-viewable base URL derived from the hint, when the hint matches
    /// a recognized hosting shape.
    pub source_web_base_url: Option<String>,
    /// Authorship time, in seconds since the epoch, kept verbatim.
    pub author_date_seconds: i64,
    /// The authorship record's UTC offset, in minutes, kept verbatim.
    pub author_offset_minutes: i32,
    /// First line of the source commit message; display only.
    pub subject: String,
}

/// The mathematical value of a [`SourceCommit`].
pub struct SourceCommitView {
    pub sha: Seq<char>,
    pub source_repo_hint: Seq<char>,
    pub source_web_base_url: Option<Seq<char>>,
    pub author_date_seconds: int,
    pub author_offset_minutes: int,
    pub subject: Seq<char>,
}

impl View for SourceCommit {
    type V = SourceCommitView;

    open spec fn view(&self) -> SourceCommitView {
        SourceCommitView {
            sha: self.sha@,
            source_repo_hint: self.source_repo_hint@,
            source_web_base_url: match self.source_web_base_url {
                Some(u) => Some(u@),
                None => None,
            },
            author_date_seconds: self.author_date_seconds as int,
            author_offset_minutes: self.author_offset_minutes as int,
            subject: self.subject@,
        }
    }
}

impl SourceCommitView {
    /// A record the engine can mirror: the hash is a normalized 40-character
    /// hexadecimal identifier, and the one-line fields hold no line feed.
    pub open spec fn wf(self) -> bool {
        &&& self.sha.len() == 40
        &&& all_lower_hex(self.sha)
        &&& no_newline(self.source_repo_hint)
        &&& no_newline(self.subject)
        &&& match self.source_web_base_url {
            Some(u) => no_newline(u),
            None => true,
        }
    }
}

impl SourceCommit {
    /// Decides whether this record is well formed (see
    /// [`SourceCommitView::wf`]).
    pub fn is_well_formed(&self) -> (b: bool)
        ensures
            b == self@.wf(),
    {
        if self.sha.as_str().unicode_len() != 40 {
            return false;
        }
        if !str_all_lower_hex(self.sha.as_str()) {
            return false;
        }
        if contains_newline(self.source_repo_hint.as_str()) {
            return false;
        }
        if contains_newline(self.subject.as_str()) {
            return false;
        }
        match &self.source_web_base_url {
            Some(u) => !contains_newline(u.as_str()),
            None => true,
        }
    }
}

impl Clone for SourceCommit {
    /// An equal record.
    fn clone(&self) -> (r: Self)
        ensures
            r == *self,
    {
        SourceCommit {
            sha: self.sha.clone(),
            source_repo_hint: self.source_repo_hint.clone(),
            source_web_base_url: match &self.source_web_base_url {
                Some(u) => Some(u.clone()),
                None => None,
            },
            author_date_seconds: self.author_date_seconds,
            author_offset_minutes: self.author_offset_minutes,
            subject: self.subject.clone(),
        }
    }
}

} // verus!
