//! Links to the logs of a run: where a log lives, and the escaping that makes
//! the address safe to put into the report.

use crate::config::{Config, ToolchainType};
use crate::identity::{CrateId, CrateIdView};
use vstd::prelude::*;
use vstd::string::*;
use vstd::utf8::encode_utf8;

verus! {

/// The digit that stands for `n`, which is below sixteen, in upper-case
/// hexadecimal notation.
pub open spec fn hex_digit(n: int) -> char {
    if n < 10 {
        (48 + n) as char
    } else {
        (55 + n) as char
    }
}

/// A byte as it is written when it is escaped: a percent sign and its two
/// hexadecimal digits.
pub open spec fn escape(byte: u8) -> Seq<char> {
    seq!['%', hex_digit(byte as int / 16), hex_digit(byte as int % 16)]
}

/// `percent_encoding::percent_encode_byte`: the escaped form of the byte,
/// which the function reads out of its table of the 256 forms `%00` to
/// `%FF`.
pub assume_specification[ percent_encoding::percent_encode_byte ](byte: u8) -> (text: &'static str)
    ensures
        text@ == escape(byte),
;

/// Which bytes a link may not hold as they are: the control characters,
/// everything beyond ASCII, and the space and `"`, `#`, `+`, `<`, `>`, `?`,
/// `` ` ``, `{` and `}`.
pub open spec fn must_escape(byte: u8) -> bool {
    ||| byte < 0x20
    ||| byte > 0x7e
    ||| byte == 0x20
    ||| byte == 0x22
    ||| byte == 0x23
    ||| byte == 0x2b
    ||| byte == 0x3c
    ||| byte == 0x3e
    ||| byte == 0x3f
    ||| byte == 0x60
    ||| byte == 0x7b
    ||| byte == 0x7d
}

/// A byte string with each byte that may not stand as it is escaped, and
/// each other byte as the ASCII character that it is.
pub open spec fn escaped(bytes: Seq<u8>) -> Seq<char>
    decreases bytes.len(),
{
    if bytes.len() == 0 {
        Seq::empty()
    } else {
        escaped(bytes.drop_last()) + (if must_escape(bytes.last()) {
            escape(bytes.last())
        } else {
            seq![bytes.last() as char]
        })
    }
}

/// A text as a link holds it: its UTF-8 encoding, escaped.
pub open spec fn link_text(raw: Seq<char>) -> Seq<char> {
    escaped(encode_utf8(raw))
}

/// Whether a link may not hold the byte as it is.
fn needs_escape(byte: u8) -> (yes: bool)
    ensures
        yes == must_escape(byte),
{
    byte < 0x20 || byte > 0x7e || byte == 0x20 || byte == 0x22 || byte == 0x23 || byte == 0x2b
        || byte == 0x3c || byte == 0x3e || byte == 0x3f || byte == 0x60 || byte == 0x7b || byte
        == 0x7d
}

/// Escapes a text so that a link can hold it.
pub fn percent_encode(raw: &str) -> (link: String)
    ensures
        link@ == link_text(raw@),
{
    let bytes = raw.as_bytes();
    let mut link = String::new();
    let mut i: usize = 0;
    while i < bytes.len()
        invariant
            i <= bytes.len(),
            bytes@ == encode_utf8(raw@),
            link@ == escaped(bytes@.take(i as int)),
        decreases bytes.len() - i,
    {
        let byte = bytes[i];
        proof {
            assert(bytes@.take(i + 1).drop_last() =~= bytes@.take(i as int));
            assert(bytes@.take(i + 1).last() == byte);
        }
        if needs_escape(byte) {
            link.append(percent_encoding::percent_encode_byte(byte));
        } else {
            let ghost before = link@;
            link.push(byte as char);
            assert(link@ =~= before + seq![byte as char]);
        }
        i = i + 1;
    }
    assert(bytes@.take(i as int) =~= bytes@);
    link
}

impl CrateIdView {
    /// Where the logs of the crate are filed below a toolchain:
    /// `reg/package-version` or `gh/user.repository`.
    pub open spec fn log_path(self) -> Seq<char> {
        match self {
            CrateIdView::CratesIo { package, version } => "reg/"@ + package + "-"@ + version,
            CrateIdView::GitHub { user, repository } => "gh/"@ + user + "."@ + repository,
        }
    }
}

/// The address of a log before it is escaped: the run, the toolchain, the
/// crate, and the name of the log file.
pub open spec fn raw_log_url(cfg: &Config, id: CrateIdView, ty: ToolchainType) -> Seq<char> {
    "https://crater-reports.s3.amazonaws.com/"@ + cfg.name@ + "/"@ + cfg.toolchain(ty).label()
        + "/"@ + id.log_path() + "/log.txt"@
}

/// The link to the log of the crate under the toolchain of the given role.
pub open spec fn log_link(cfg: &Config, id: CrateIdView, ty: ToolchainType) -> Seq<char> {
    link_text(raw_log_url(cfg, id, ty))
}

impl CrateId {
    /// The link to the log of the crate under the toolchain of the given
    /// role.
    pub fn log_url(&self, cfg: &Config, ty: ToolchainType) -> (link: String)
        ensures
            link@ == log_link(cfg, self@, ty),
    {
        let mut raw = String::from_str("https://crater-reports.s3.amazonaws.com/");
        raw.append(cfg.name.as_str());
        raw.append("/");
        raw.append(cfg.toolchain_name(ty).as_str());
        raw.append("/");
        match self {
            CrateId::CratesIo { package, version } => {
                raw.append("reg/");
                raw.append(package.as_str());
                raw.append("-");
                raw.append(version.as_str());
            },
            CrateId::GitHub { user, repository } => {
                raw.append("gh/");
                raw.append(user.as_str());
                raw.append(".");
                raw.append(repository.as_str());
            },
        }
        raw.append("/log.txt");
        assert(raw@ =~= raw_log_url(cfg, self@, ty));
        percent_encode(raw.as_str())
    }
}

} // verus!
