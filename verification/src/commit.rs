//! Commits and the notification text built for each new one.

use vstd::prelude::*;
use vstd::string::StringExecFns;

verus! {

/// One commit as the hosting API reports it: a content hash that identifies
/// the commit, author metadata, the commit message, and a link.
pub struct Commit {
    pub id: String,
    pub author_name: String,
    pub author_date: String,
    pub message: String,
    pub url: String,
}

impl Clone for Commit {
    fn clone(&self) -> (c: Self)
        ensures
            c == *self,
    {
        Commit {
            id: self.id.clone(),
            author_name: self.author_name.clone(),
            author_date: self.author_date.clone(),
            message: self.message.clone(),
            url: self.url.clone(),
        }
    }
}

/// The author field that a fetched value yields: the value itself when the
/// API reported one, the placeholder text otherwise.
pub open spec fn spec_author_field(v: Option<String>, placeholder: Seq<char>) -> Seq<char> {
    match v {
        Some(s) => s@,
        None => placeholder,
    }
}

impl Commit {
    /// Builds a commit from fetched data. Author metadata is sometimes
    /// missing upstream; a missing name or date is replaced by a placeholder
    /// so that one malformed commit never aborts a cycle.
    pub fn from_fetched(
        id: String,
        author_name: Option<String>,
        author_date: Option<String>,
        message: String,
        url: String,
    ) -> (c: Commit)
        ensures
            c.id == id,
            c.message == message,
            c.url == url,
            c.author_name@ == spec_author_field(author_name, "unknown"@),
            c.author_date@ == spec_author_field(author_date, "unknown"@),
    {
        let name = match author_name {
            Some(n) => n,
            None => "unknown".to_owned(),
        };
        let date = match author_date {
            Some(d) => d,
            None => "unknown".to_owned(),
        };
        Commit { id, author_name: name, author_date: date, message, url }
    }
}

/// The text of the notification for one commit, attributed to the mentor of
/// the account it was found on.
pub open spec fn spec_notification(
    mentor: Seq<char>,
    date: Seq<char>,
    author: Seq<char>,
    message: Seq<char>,
    url: Seq<char>,
) -> Seq<char> {
    mentor + " | Date: "@ + date + " Author: "@ + author + " Commit message: "@ + message + " <"@
        + url + ">"@
}

/// The notification text of `commit`, as `spec_notification` states it.
pub fn format_notification(mentor: &String, commit: &Commit) -> (r: String)
    ensures
        r@ == spec_notification(
            mentor@,
            commit.author_date@,
            commit.author_name@,
            commit.message@,
            commit.url@,
        ),
{
    let mut s = mentor.clone();
    s.append(" | Date: ");
    s.append(commit.author_date.as_str());
    s.append(" Author: ");
    s.append(commit.author_name.as_str());
    s.append(" Commit message: ");
    s.append(commit.message.as_str());
    s.append(" <");
    s.append(commit.url.as_str());
    s.append(">");
    proof {
        assert(s@ =~= spec_notification(
            mentor@,
            commit.author_date@,
            commit.author_name@,
            commit.message@,
            commit.url@,
        ));
    }
    s
}

} // verus!
