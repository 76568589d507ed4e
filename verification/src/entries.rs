//! The credential record audited by every check: title, url, username,
//! cleartext password, and the password's uppercase hex SHA-1 digest.

use vstd::prelude::*;
use vstd::string::*;

use crate::digest::sha1_hex;
use crate::digest::sha1_hex_digest;

verus! {

/// One vault record relevant to auditing. `digest` is computed once at
/// ingestion from `pass` and treated as immutable thereafter.
#[derive(Debug)]
pub struct Entry {
    pub title: String,
    pub url: String,
    pub username: String,
    pub pass: String,
    pub digest: String,
}

/// How an entry is labelled in reports: by username and title, else by
/// username and url, else by username alone.
pub open spec fn display_spec(e: Entry) -> Seq<char> {
    if e.title@.len() > 0 {
        e.username@ + " on "@ + e.title@
    } else if e.url@.len() > 0 {
        e.username@ + " for "@ + e.url@
    } else {
        e.username@
    }
}

impl Entry {
    /// A useful entry carries a real secret, and its digest is the
    /// 40-character uppercase hex SHA-1 fingerprint of that secret.
    pub open spec fn wf(self) -> bool {
        &&& self.pass@.len() > 0
        &&& self.digest@ == sha1_hex(self.pass@)
        &&& self.digest@.len() == 40
    }

    /// Renders the entry's report label.
    pub fn display_string(&self) -> (r: String)
        ensures
            r@ == display_spec(*self),
    {
        proof {
            reveal_strlit(" on ");
            reveal_strlit(" for ");
        }
        let mut s = String::new();
        s.append(self.username.as_str());
        if !self.title.as_str().is_empty() {
            s.append(" on ");
            s.append(self.title.as_str());
        } else if !self.url.as_str().is_empty() {
            s.append(" for ");
            s.append(self.url.as_str());
        }
        proof {
            assert(s@ =~= display_spec(*self));
        }
        s
    }
}

impl Clone for Entry {
    fn clone(&self) -> (r: Entry)
        ensures
            r == *self,
    {
        Entry {
            title: self.title.clone(),
            url: self.url.clone(),
            username: self.username.clone(),
            pass: self.pass.clone(),
            digest: self.digest.clone(),
        }
    }
}

/// Builds one audit entry from the plain fields a vault reader yields,
/// computing the digest at ingestion. Entries with an empty password are of
/// no use for auditing and are rejected.
pub fn build_entry(title: String, url: String, username: String, pass: String) -> (r: Option<
    Entry,
>)
    ensures
        pass@.len() == 0 <==> r is None,
        r matches Some(e) ==> {
            &&& e.wf()
            &&& e.title == title
            &&& e.url == url
            &&& e.username == username
            &&& e.pass == pass
            &&& e.digest@ == sha1_hex(pass@)
        },
{
    if pass.as_str().is_empty() {
        return None;
    }
    let digest = sha1_hex_digest(pass.as_str());
    Some(Entry { title, url, username, pass, digest })
}

} // verus!
