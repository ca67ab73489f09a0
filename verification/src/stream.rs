use vstd::prelude::*;
use crate::bytestr::{spec_find, contains_subslice};

verus! {

use vstd::string::StringSliceAdditionalSpecFns;
use vstd::string::{StringExecFns, StringExecFnsIsAscii};
use vstd::utf8::encode_utf8;

/// The page-opening marker `<page>`.
/// Bytes are ASCII: 60 `<`, 112 `p`, 97 `a`, 103 `g`, 101 `e`, 62 `>`.
pub open spec fn opening_marker() -> Seq<u8> {
    seq![60u8, 112u8, 97u8, 103u8, 101u8, 62u8]
}

/// The page-closing marker `</page>` (47 is `/`).
pub open spec fn closing_marker() -> Seq<u8> {
    seq![60u8, 47u8, 112u8, 97u8, 103u8, 101u8, 62u8]
}

/// Whether a line holds the marker anywhere as a contiguous byte run.
pub open spec fn line_has(line: Seq<u8>, marker: Seq<u8>) -> bool {
    spec_find(line, marker, 0) is Some
}

/// Whether the assembler is inside a page after reading one more line:
/// outside, only a line holding the opening marker opens a page; inside,
/// only a line holding the closing marker ends it.
pub open spec fn next_inside(inside: bool, line: Seq<char>) -> bool {
    if !inside {
        line_has(encode_utf8(line), opening_marker())
    } else {
        !line_has(encode_utf8(line), closing_marker())
    }
}

/// Whether the assembler is inside a page after reading all the lines.
pub open spec fn run_inside(inside: bool, lines: Seq<Seq<char>>) -> bool
    decreases lines.len(),
{
    if lines.len() == 0 {
        inside
    } else {
        run_inside(next_inside(inside, lines[0]), lines.skip(1))
    }
}

/// How many pages the assembler opens while reading the lines: one for
/// each line that holds the opening marker and arrives outside a page.
pub open spec fn pages_opened(inside: bool, lines: Seq<Seq<char>>) -> nat
    decreases lines.len(),
{
    if lines.len() == 0 {
        0
    } else {
        (if !inside && line_has(encode_utf8(lines[0]), opening_marker()) {
            1nat
        } else {
            0nat
        }) + pages_opened(next_inside(inside, lines[0]), lines.skip(1))
    }
}

/// How many pages the assembler emits while reading the lines: one for
/// each line that holds the closing marker and arrives inside a page.
pub open spec fn pages_emitted(inside: bool, lines: Seq<Seq<char>>) -> nat
    decreases lines.len(),
{
    if lines.len() == 0 {
        0
    } else {
        (if inside && line_has(encode_utf8(lines[0]), closing_marker()) {
            1nat
        } else {
            0nat
        }) + pages_emitted(next_inside(inside, lines[0]), lines.skip(1))
    }
}

/// Every page the assembler opens is emitted by the closing marker that
/// ends it, except a page still open when the input ends, which is silently
/// dropped: over any line sequence, the pages emitted number exactly the
/// pages opened, less one when a page is still open at the end.  In
/// particular, a file whose opening markers each open a page and whose last
/// page is unterminated emits one page fewer than it has opening markers.
pub proof fn lemma_open_pages_accounted(inside: bool, lines: Seq<Seq<char>>)
    ensures
        pages_emitted(inside, lines) + (if run_inside(inside, lines) {
            1nat
        } else {
            0nat
        }) == pages_opened(inside, lines) + (if inside {
            1nat
        } else {
            0nat
        }),
    decreases lines.len(),
{
    if lines.len() != 0 {
        lemma_open_pages_accounted(next_inside(inside, lines[0]), lines.skip(1));
    }
}

/// Reassembles raw pages from a stream of corpus lines.  A page begins at a
/// line holding the opening marker and ends at a line holding the closing
/// marker; the lines strictly between them, each followed by its newline,
/// form the page.  A page still open when the stream ends is never emitted.
pub struct PageAssembler {
    inside: bool,
    buf: String,
}

impl PageAssembler {
    /// Whether the assembler is between an opening marker and the closing
    /// marker that will finish the current page.
    pub closed spec fn is_inside(&self) -> bool {
        self.inside
    }

    /// The content lines collected so far for the current page.
    pub closed spec fn buffered(&self) -> Seq<char> {
        self.buf@
    }

    /// An assembler that has seen nothing yet.
    pub fn new() -> (r: Self)
        ensures
            !r.is_inside(),
            r.buffered() == Seq::<char>::empty(),
    {
        PageAssembler { inside: false, buf: String::new() }
    }

    /// Feed one line.  Outside a page, a line holding the opening marker
    /// opens one and every other line is ignored; inside a page, a line
    /// holding the closing marker emits the collected page, and every other
    /// line is collected together with its newline.
    pub fn push_line(&mut self, line: &str) -> (r: Option<String>)
        ensures
            final(self).is_inside() == next_inside(old(self).is_inside(), line@),
            r is Some == (old(self).is_inside() && line_has(
                line.spec_bytes(),
                closing_marker(),
            )),
            ({
                let lb = line.spec_bytes();
                if !old(self).is_inside() {
                    if line_has(lb, opening_marker()) {
                        &&& final(self).is_inside()
                        &&& final(self).buffered() == Seq::<char>::empty()
                        &&& r is None
                    } else {
                        &&& *final(self) == *old(self)
                        &&& r is None
                    }
                } else {
                    if line_has(lb, closing_marker()) {
                        &&& !final(self).is_inside()
                        &&& final(self).buffered() == Seq::<char>::empty()
                        &&& r matches Some(page) && page@ == old(self).buffered()
                    } else {
                        &&& final(self).is_inside()
                        &&& final(self).buffered() == old(self).buffered() + line@ + "\n"@
                        &&& r is None
                    }
                }
            }),
    {
        let lb = line.as_bytes();
        if !self.inside {
            let opening: Vec<u8> = vec![60u8, 112u8, 97u8, 103u8, 101u8, 62u8];
            proof {
                assert(opening@ =~= opening_marker());
            }
            if contains_subslice(lb, opening.as_slice()) {
                self.inside = true;
                self.buf = String::new();
            }
            None
        } else {
            let closing: Vec<u8> = vec![60u8, 47u8, 112u8, 97u8, 103u8, 101u8, 62u8];
            proof {
                assert(closing@ =~= closing_marker());
            }
            if contains_subslice(lb, closing.as_slice()) {
                self.inside = false;
                let page = self.buf.clone();
                self.buf = String::new();
                Some(page)
            } else {
                self.buf.append(line);
                self.buf.append("\n");
                None
            }
        }
    }
}

} // verus!
