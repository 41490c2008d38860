//! A one-line text box: its content and cursor, with the editing rules.
//! The cursor counts bytes of the UTF-8 content, as the surrounding program
//! indexes it; editing at a position demands that a character starts there.

use vstd::prelude::*;
use vstd::string::StrSliceExecFns;
use vstd::utf8::decode_utf8_encode_utf8;
use vstd::utf8::encode_scalar;
use vstd::utf8::encode_utf8;
use vstd::utf8::encode_utf8_valid_utf8;
use vstd::utf8::is_char_boundary;
use vstd::utf8::is_continuation_byte;
use vstd::utf8::is_leading_byte_width_1;
use vstd::utf8::is_leading_byte_width_2;
use vstd::utf8::is_leading_byte_width_3;
use vstd::utf8::is_leading_byte_width_4;
use vstd::utf8::length_of_first_scalar;
use vstd::utf8::pop_first_scalar;
use vstd::utf8::valid_first_scalar;
use vstd::utf8::valid_utf8;
use vstd::utf8::valid_utf8_concat;
use vstd::utf8::valid_utf8_split;

use crate::events::CursorMovement;

verus! {

/// The drawable widget: how the text box looks.
pub struct Textbox<'a> {
    style: tui::style::Style,
    block: Option<tui::widgets::Block<'a>>,
}

impl<'a> Textbox<'a> {
    pub closed spec fn spec_style(&self) -> tui::style::Style {
        self.style
    }

    pub closed spec fn spec_block(&self) -> Option<tui::widgets::Block<'a>> {
        self.block
    }

    pub fn new() -> (r: Self)
        ensures
            r.spec_block() is None,
    {
        Textbox { style: crate::ext::default_style(), block: None }
    }

    pub fn block(self, block: tui::widgets::Block<'a>) -> (r: Self)
        ensures
            r.spec_block() == Some(block),
            r.spec_style() == self.spec_style(),
    {
        Textbox { block: Some(block), ..self }
    }

    pub fn style(self, style: tui::style::Style) -> (r: Self)
        ensures
            r.spec_style() == style,
            r.spec_block() == self.spec_block(),
    {
        Textbox { style, ..self }
    }
}

/// The bytes of `b` with the encoding of `c` inserted at byte position `i`.
pub open spec fn insert_bytes_at(b: Seq<u8>, i: int, c: char) -> Seq<u8> {
    b.subrange(0, i) + encode_utf8(seq![c]) + b.subrange(i, b.len() as int)
}

/// The bytes of `b` with the character starting at byte position `i` removed.
pub open spec fn remove_char_at(b: Seq<u8>, i: int) -> Seq<u8> {
    b.subrange(0, i) + b.subrange(
        i + length_of_first_scalar(b.subrange(i, b.len() as int)),
        b.len() as int,
    )
}

/// The UTF-8 bytes of one character.
fn char_utf8(c: char) -> (r: Vec<u8>)
    ensures
        r@ == encode_utf8(seq![c]),
        1 <= r@.len() <= 4,
{
    proof {
        vstd::utf8::char_is_scalar(c);
        assert(seq![c].drop_first() =~= Seq::<char>::empty());
        assert(encode_utf8(Seq::<char>::empty()) =~= Seq::<u8>::empty());
        assert(seq![c][0] == c);
        assert(encode_utf8(seq![c]) =~= encode_scalar(c as u32));
    }
    crate::json::scalar_utf8(c as u32)
}

/// The editable state of a text box.
pub struct TextboxState {
    content: String,
    cursor_position: u16,
}

impl TextboxState {
    pub closed spec fn spec_content(&self) -> Seq<char> {
        self.content@
    }

    /// The content as UTF-8 bytes, which the cursor indexes.
    pub closed spec fn spec_bytes(&self) -> Seq<u8> {
        encode_utf8(self.content@)
    }

    pub closed spec fn spec_cursor(&self) -> u16 {
        self.cursor_position
    }

    /// The cursor stays inside the content, which fits the cursor's width.
    pub closed spec fn wf(&self) -> bool {
        &&& self.cursor_position <= self.spec_bytes().len()
        &&& self.spec_bytes().len() <= u16::MAX
    }

    pub fn new() -> (r: TextboxState)
        ensures
            r.spec_content() == Seq::<char>::empty(),
            r.spec_cursor() == 0,
            r.wf(),
    {
        let r = TextboxState { content: String::new(), cursor_position: 0 };
        proof {
            assert(r.spec_bytes() =~= Seq::<u8>::empty());
        }
        r
    }

    /// Clears the content of the textbox.
    pub fn clear(&mut self)
        ensures
            final(self).spec_content() == Seq::<char>::empty(),
            final(self).spec_cursor() == 0,
            final(self).wf(),
    {
        self.content = String::new();
        self.cursor_position = 0;
        proof {
            assert(self.spec_bytes() =~= Seq::<u8>::empty());
        }
    }

    /// Get a reference to the content.
    pub fn content(&self) -> (r: &String)
        ensures
            r@ == self.spec_content(),
    {
        &self.content
    }

    /// Get the current position of the cursor.
    pub fn cursor_position(&self) -> (r: u16)
        ensures
            r == self.spec_cursor(),
    {
        self.cursor_position
    }

    /// Insert a character where the cursor stands — a character must start
    /// there — and step one position past it.
    #[verifier::loop_isolation(false)]
    pub fn insert_character(&mut self, c: char)
        requires
            old(self).wf(),
            is_char_boundary(old(self).spec_bytes(), old(self).spec_cursor() as int),
            old(self).spec_bytes().len() + 4 <= u16::MAX,
        ensures
            final(self).wf(),
            final(self).spec_bytes() == insert_bytes_at(
                old(self).spec_bytes(),
                old(self).spec_cursor() as int,
                c,
            ),
            final(self).spec_cursor() == old(self).spec_cursor() + 1,
    {
        let ghost oldb = self.spec_bytes();
        let bs = self.content.as_str().as_bytes_vec();
        let cur = self.cursor_position as usize;
        let enc = char_utf8(c);
        let ghost pre = oldb.subrange(0, cur as int);
        let ghost suf = oldb.subrange(cur as int, oldb.len() as int);
        let mut nb: Vec<u8> = Vec::new();
        let mut i: usize = 0;
        while i < cur
            invariant
                0 <= i <= cur,
                nb@ == bs@.subrange(0, i as int),
            decreases cur - i,
        {
            nb.push(bs[i]);
            assert(nb@ =~= bs@.subrange(0, i + 1));
            i += 1;
        }
        let m = enc.len();
        let mut j: usize = 0;
        while j < m
            invariant
                0 <= j <= m == enc.len(),
                nb@ == pre + enc@.subrange(0, j as int),
            decreases m - j,
        {
            nb.push(enc[j]);
            assert(nb@ =~= pre + enc@.subrange(0, j + 1));
            j += 1;
        }
        proof {
            assert(enc@.subrange(0, m as int) =~= enc@);
        }
        let n = bs.len();
        let mut k: usize = cur;
        while k < n
            invariant
                cur <= k <= n == bs.len(),
                nb@ == pre + enc@ + bs@.subrange(cur as int, k as int),
            decreases n - k,
        {
            nb.push(bs[k]);
            assert(nb@ =~= pre + enc@ + bs@.subrange(cur as int, k + 1));
            k += 1;
        }
        proof {
            encode_utf8_valid_utf8(self.content@);
            valid_utf8_split(oldb, cur as int);
            encode_utf8_valid_utf8(seq![c]);
            valid_utf8_concat(pre, enc@);
            valid_utf8_concat(pre + enc@, suf);
            assert(nb@ =~= (pre + enc@) + suf);
            assert(valid_utf8(nb@));
        }
        let ghost nbv = nb@;
        self.content = match crate::ext::bytes_to_string(nb) {
            Some(st) => st,
            None => {
                proof {
                    assert(false);
                }
                String::new()
            },
        };
        proof {
            decode_utf8_encode_utf8(nbv);
            assert(self.spec_bytes() == nbv);
            assert(nbv =~= insert_bytes_at(oldb, cur as int, c));
        }
        self.cursor_position = self.cursor_position + 1;
    }

    /// Remove the character before the cursor, if any — a character must
    /// start there — and step back onto its position.
    #[verifier::loop_isolation(false)]
    pub fn remove_character(&mut self)
        requires
            old(self).wf(),
            old(self).spec_cursor() > 0 ==> is_char_boundary(
                old(self).spec_bytes(),
                old(self).spec_cursor() - 1,
            ),
        ensures
            final(self).wf(),
            old(self).spec_cursor() > 0 ==> final(self).spec_bytes() == remove_char_at(
                old(self).spec_bytes(),
                old(self).spec_cursor() - 1,
            ) && final(self).spec_cursor() == old(self).spec_cursor() - 1,
            old(self).spec_cursor() == 0 ==> *final(self) == *old(self),
    {
        if self.cursor_position == 0 {
            return ;
        }
        let ghost oldb = self.spec_bytes();
        let bs = self.content.as_str().as_bytes_vec();
        let cur = self.cursor_position as usize - 1;
        let ghost pre = oldb.subrange(0, cur as int);
        let ghost suf = oldb.subrange(cur as int, oldb.len() as int);
        proof {
            encode_utf8_valid_utf8(self.content@);
            valid_utf8_split(oldb, cur as int);
            assert(valid_utf8(suf));
            assert(suf.len() > 0);
            assert(valid_first_scalar(suf));
            assert(suf[0] == oldb[cur as int]);
        }
        let b = bs[cur];
        let w: usize = if b < 0x80 {
            1
        } else if b < 0xE0 {
            proof {
                assert(!is_leading_byte_width_1(suf[0]));
                assert(!is_continuation_byte(suf[0])) by {
                    if is_continuation_byte(suf[0]) {
                        assert(!valid_first_scalar(suf));
                    }
                }
                assert(is_leading_byte_width_2(suf[0]));
            }
            2
        } else if b < 0xF0 {
            assert(is_leading_byte_width_3(suf[0]));
            3
        } else {
            proof {
                assert(!is_leading_byte_width_1(suf[0]) && !is_leading_byte_width_2(suf[0])
                    && !is_leading_byte_width_3(suf[0]));
                assert(is_leading_byte_width_4(suf[0]));
            }
            4
        };
        proof {
            assert(w == length_of_first_scalar(suf));
            assert(suf.len() >= w);
            assert(valid_utf8(pop_first_scalar(suf)));
            assert(pop_first_scalar(suf) =~= oldb.subrange(cur + w, oldb.len() as int));
        }
        let mut nb: Vec<u8> = Vec::new();
        let mut i: usize = 0;
        while i < cur
            invariant
                0 <= i <= cur,
                nb@ == bs@.subrange(0, i as int),
            decreases cur - i,
        {
            nb.push(bs[i]);
            assert(nb@ =~= bs@.subrange(0, i + 1));
            i += 1;
        }
        let n = bs.len();
        let mut k: usize = cur + w;
        while k < n
            invariant
                cur + w <= k <= n == bs.len(),
                nb@ == pre + bs@.subrange(cur + w, k as int),
            decreases n - k,
        {
            nb.push(bs[k]);
            assert(nb@ =~= pre + bs@.subrange(cur + w, k + 1));
            k += 1;
        }
        proof {
            valid_utf8_concat(pre, oldb.subrange(cur + w, oldb.len() as int));
            assert(nb@ =~= pre + oldb.subrange(cur + w, oldb.len() as int));
            assert(valid_utf8(nb@));
        }
        let ghost nbv = nb@;
        self.content = match crate::ext::bytes_to_string(nb) {
            Some(st) => st,
            None => {
                proof {
                    assert(false);
                }
                String::new()
            },
        };
        proof {
            decode_utf8_encode_utf8(nbv);
            assert(self.spec_bytes() == nbv);
            assert(nbv =~= remove_char_at(oldb, cur as int));
        }
        self.cursor_position = self.cursor_position - 1;
    }

    /// Step the cursor left or right, clamped to the content's bytes.
    pub fn move_cursor(&mut self, movement: CursorMovement)
        requires
            old(self).wf(),
        ensures
            final(self).wf(),
            final(self).spec_content() == old(self).spec_content(),
            match movement {
                CursorMovement::Left(n) => final(self).spec_cursor() == if n <= old(
                    self,
                ).spec_cursor() {
                    (old(self).spec_cursor() - n) as u16
                } else {
                    0u16
                },
                CursorMovement::Right(n) => final(self).spec_cursor() == if old(
                    self,
                ).spec_cursor() + n <= old(self).spec_bytes().len() {
                    (old(self).spec_cursor() + n) as u16
                } else {
                    old(self).spec_bytes().len() as u16
                },
                _ => final(self).spec_cursor() == old(self).spec_cursor(),
            },
    {
        match movement {
            CursorMovement::Left(n) => {
                if n <= self.cursor_position {
                    self.cursor_position = self.cursor_position - n;
                } else {
                    self.cursor_position = 0;
                }
            },
            CursorMovement::Right(n) => {
                let len_bytes = self.content.as_str().len();
                let len: u16 = len_bytes as u16;
                let room = len - self.cursor_position;
                if n <= room {
                    self.cursor_position = self.cursor_position + n;
                } else {
                    self.cursor_position = len;
                }
            },
            _ => {},
        }
    }

    /// Take and return the content, leaving the textbox empty.
    pub fn take(&mut self) -> (r: String)
        ensures
            r@ == old(self).spec_content(),
            final(self).spec_content() == Seq::<char>::empty(),
            final(self).spec_cursor() == 0,
            final(self).wf(),
    {
        let out = self.content.clone();
        self.content = String::new();
        self.cursor_position = 0;
        proof {
            assert(self.spec_bytes() =~= Seq::<u8>::empty());
        }
        out
    }
}

} // verus!
