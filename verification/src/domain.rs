//! The regional endpoints of the service: a region tag maps to the base URL
//! prefix that the two requests of a submission are made against.

use vstd::prelude::*;
use vstd::string::StringExecFns;
use crate::text::chars_of;

verus! {

/// A regional domain of the service.
#[derive(Debug, Clone, Copy, PartialEq, Eq, Structural)]
pub enum ShindanDomain {
    Jp,
    En,
    Cn,
    Kr,
    Th,
}

impl ShindanDomain {
    /// The base URL prefix of this region.
    pub open spec fn spec_url(self) -> Seq<char> {
        match self {
            ShindanDomain::Jp => "https://shindanmaker.com/"@,
            ShindanDomain::En => "https://en.shindanmaker.com/"@,
            ShindanDomain::Cn => "https://cn.shindanmaker.com/"@,
            ShindanDomain::Kr => "https://kr.shindanmaker.com/"@,
            ShindanDomain::Th => "https://th.shindanmaker.com/"@,
        }
    }

    /// The base URL prefix of this region.
    pub fn url(&self) -> (r: String)
        ensures
            r@ == self.spec_url(),
    {
        match self {
            ShindanDomain::Jp => String::from_str("https://shindanmaker.com/"),
            ShindanDomain::En => String::from_str("https://en.shindanmaker.com/"),
            ShindanDomain::Cn => String::from_str("https://cn.shindanmaker.com/"),
            ShindanDomain::Kr => String::from_str("https://kr.shindanmaker.com/"),
            ShindanDomain::Th => String::from_str("https://th.shindanmaker.com/"),
        }
    }

    /// The URL of a page: the region's base URL followed by the page id.
    pub fn page_url(&self, id: &str) -> (r: String)
        ensures
            r@ == self.spec_url() + id@,
    {
        let mut s = self.url();
        s.append(id);
        s
    }

    /// The region a two-letter tag names, compared letter for letter with
    /// both letter cases accepted.
    pub open spec fn spec_of_tag(s: Seq<char>) -> Option<ShindanDomain> {
        if tag_is(s, 'j', 'J', 'p', 'P') {
            Some(ShindanDomain::Jp)
        } else if tag_is(s, 'e', 'E', 'n', 'N') {
            Some(ShindanDomain::En)
        } else if tag_is(s, 'c', 'C', 'n', 'N') {
            Some(ShindanDomain::Cn)
        } else if tag_is(s, 'k', 'K', 'r', 'R') {
            Some(ShindanDomain::Kr)
        } else if tag_is(s, 't', 'T', 'h', 'H') {
            Some(ShindanDomain::Th)
        } else {
            None
        }
    }

    /// The region named by a tag such as `"en"`, `"EN"` or `"En"`, or
    /// `None` for any other text.
    pub fn from_str(s: &str) -> (r: Option<ShindanDomain>)
        ensures
            r == Self::spec_of_tag(s@),
    {
        let v = chars_of(s);
        if v.len() != 2 {
            return None;
        }
        let c0 = v[0];
        let c1 = v[1];
        if (c0 == 'j' || c0 == 'J') && (c1 == 'p' || c1 == 'P') {
            Some(ShindanDomain::Jp)
        } else if (c0 == 'e' || c0 == 'E') && (c1 == 'n' || c1 == 'N') {
            Some(ShindanDomain::En)
        } else if (c0 == 'c' || c0 == 'C') && (c1 == 'n' || c1 == 'N') {
            Some(ShindanDomain::Cn)
        } else if (c0 == 'k' || c0 == 'K') && (c1 == 'r' || c1 == 'R') {
            Some(ShindanDomain::Kr)
        } else if (c0 == 't' || c0 == 'T') && (c1 == 'h' || c1 == 'H') {
            Some(ShindanDomain::Th)
        } else {
            None
        }
    }
}

/// Whether `s` is the two-letter tag with the given lower- and upper-case
/// forms of each letter.
pub open spec fn tag_is(s: Seq<char>, l0: char, u0: char, l1: char, u1: char) -> bool {
    s.len() == 2 && (s[0] == l0 || s[0] == u0) && (s[1] == l1 || s[1] == u1)
}

} // verus!
