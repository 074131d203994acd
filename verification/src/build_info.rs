//! Version and build identification for logs.
use vstd::prelude::*;
use vstd::string::StringSliceAdditionalSpecFns;
use vstd::utf8::{decode_utf8, is_char_boundary};

verus! {

/// The version of this build, with the commit and build time when they were recorded.
#[derive(Debug, Clone, Copy)]
pub struct BuildInfo {
    pub version: &'static str,
    pub git_commit: Option<&'static str>,
    pub build_ts_ms: Option<&'static str>,
}

/// The first eight bytes of a commit id, when they end on a character boundary; else the
/// whole id.
pub open spec fn short_commit(c: &str) -> Seq<char> {
    if c.spec_bytes().len() >= 8 && is_char_boundary(c.spec_bytes(), 8) {
        decode_utf8(c.spec_bytes().subrange(0, 8))
    } else {
        c@
    }
}

/// `vpnnode v<version>`, then ` commit=<first 8 bytes>` and ` build_ts_ms=<time>` when known.
pub open spec fn short_text(b: BuildInfo) -> Seq<char> {
    "vpnnode v"@ + b.version@ + (match b.git_commit {
        Some(c) => " commit="@ + short_commit(c),
        None => Seq::empty(),
    }) + (match b.build_ts_ms {
        Some(t) => " build_ts_ms="@ + t@,
        None => Seq::empty(),
    })
}

impl BuildInfo {
    /// This build as the library knows it: package version 0.1.0; the commit and build
    /// time are set at build time in the environment, which the program fills in.
    pub fn current() -> (r: Self)
        ensures
            r.version@ == "0.1.0"@,
            r.git_commit is None,
            r.build_ts_ms is None,
    {
        BuildInfo { version: "0.1.0", git_commit: None, build_ts_ms: None }
    }

    /// One-line description for logs.
    pub fn short(&self) -> (r: String)
        ensures
            r@ == short_text(*self),
    {
        let mut s = String::from_str("vpnnode v");
        s.append(self.version);
        let ghost base = s@;
        assert(base == "vpnnode v"@ + self.version@);
        if let Some(c) = self.git_commit {
            s.append(" commit=");
            let n = c.as_bytes().len();
            if n >= 8 && c.is_char_boundary(8) {
                let (head, _) = c.split_at(8);
                proof {
                    vstd::utf8::encode_utf8_decode_utf8(head@);
                    assert(head.spec_bytes() == vstd::utf8::encode_utf8(head@));
                    assert(head@ == short_commit(c));
                }
                s.append(head);
                assert(s@ =~= base + (" commit="@ + short_commit(c)));
            } else {
                s.append(c);
                assert(s@ =~= base + (" commit="@ + short_commit(c)));
            }
        } else {
            assert(s@ =~= base + Seq::<char>::empty());
        }
        let ghost with_commit = s@;
        assert(with_commit =~= base + (match self.git_commit {
            Some(c) => " commit="@ + short_commit(c),
            None => Seq::empty(),
        }));
        if let Some(t) = self.build_ts_ms {
            s.append(" build_ts_ms=");
            s.append(t);
        }
        assert(s@ =~= short_text(*self));
        s
    }
}

} // verus!
