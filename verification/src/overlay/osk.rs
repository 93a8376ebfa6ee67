//! On-screen keyboard state machine: a character grid navigated with the
//! D-pad, three layers (lower/upper/symbols), and a text buffer; enough for
//! aliases, extensions, addresses and ports.

use crate::text::{concat, str_chars, string_of, trim, trim_chars};
use vstd::prelude::*;

verus! {

/// What the committed text is for.
#[derive(Copy, Clone, PartialEq, Eq, Debug, Structural)]
pub enum OskTarget {
    Alias,
    /// A new route's file extension; the folder is picked next in the
    /// browser.
    RouteExt,
    /// A peer's `ip[:port]`, to add it to the radar by hand.
    PeerAddress,
    /// The port we listen on.
    Port,
}

/// Index of the digits/punctuation layer.
pub const SYMBOL_LAYER: usize = 2;

/// Layers: lower, upper, symbols.
pub const LAYER_COUNT: usize = 3;

/// The longest input any target takes: `[` + a full IPv6 literal + `]:` +
/// a port, `[0000:0000:0000:0000:0000:0000:0000:0000]:65535`.
pub const MAX_LEN: usize = 47;

/// The layer a target opens on: an address is digits, dots and colons,
/// which all live on the symbols layer.
pub open spec fn opening_layer(t: OskTarget) -> nat {
    match t {
        OskTarget::Alias | OskTarget::RouteExt => 0,
        OskTarget::PeerAddress | OskTarget::Port => SYMBOL_LAYER as nat,
    }
}

/// The label above the buffer: an empty buffer says nothing about what the
/// keyboard was opened for.
pub open spec fn prompt_of(t: OskTarget) -> Seq<char> {
    match t {
        OskTarget::Alias => "Device name"@,
        OskTarget::RouteExt => "File extension"@,
        OskTarget::PeerAddress => "Device IP, e.g. 192.168.1.23"@,
        OskTarget::Port => "Port, 1024 or above"@,
    }
}

impl OskTarget {
    fn layer(self) -> (r: usize)
        ensures
            r == opening_layer(self),
    {
        match self {
            OskTarget::Alias | OskTarget::RouteExt => 0,
            OskTarget::PeerAddress | OskTarget::Port => SYMBOL_LAYER,
        }
    }

    pub fn prompt(self) -> (r: &'static str)
        ensures
            r@ == prompt_of(self),
    {
        match self {
            OskTarget::Alias => "Device name",
            OskTarget::RouteExt => "File extension",
            OskTarget::PeerAddress => "Device IP, e.g. 192.168.1.23",
            OskTarget::Port => "Port, 1024 or above",
        }
    }
}

/// The user finished (or abandoned) input.
#[derive(Clone, Debug)]
pub enum OskEvent {
    Committed(OskTarget, String),
    Cancelled,
}

#[derive(Copy, Clone, PartialEq, Eq, Debug, Structural)]
pub enum Key {
    Glyph(char),
    Space,
    Backspace,
    /// Cycle lower, upper, symbols.
    Layer,
    Confirm,
}

/// Character row `r` of `layer`. The digits layer carries `.`, `:` and the
/// IPv6 brackets, so a whole address can be typed without leaving it.
pub open spec fn char_row(layer: int, r: int) -> Seq<char> {
    if layer == 0 && r == 0 {
        "qwertyuiop"@
    } else if layer == 0 && r == 1 {
        "asdfghjkl-"@
    } else if layer == 0 && r == 2 {
        "zxcvbnm._"@
    } else if layer == 1 && r == 0 {
        "QWERTYUIOP"@
    } else if layer == 1 && r == 1 {
        "ASDFGHJKL-"@
    } else if layer == 1 && r == 2 {
        "ZXCVBNM._"@
    } else if layer == 2 && r == 0 {
        "1234567890"@
    } else if layer == 2 && r == 1 {
        "!@#$%^&*()"@
    } else if layer == 2 && r == 2 {
        "+=[]{}:;'."@
    } else {
        ""@
    }
}

fn char_row_str(layer: usize, r: usize) -> (s: &'static str)
    ensures
        s@ == char_row(layer as int, r as int),
{
    if layer == 0 && r == 0 {
        "qwertyuiop"
    } else if layer == 0 && r == 1 {
        "asdfghjkl-"
    } else if layer == 0 && r == 2 {
        "zxcvbnm._"
    } else if layer == 1 && r == 0 {
        "QWERTYUIOP"
    } else if layer == 1 && r == 1 {
        "ASDFGHJKL-"
    } else if layer == 1 && r == 2 {
        "ZXCVBNM._"
    } else if layer == 2 && r == 0 {
        "1234567890"
    } else if layer == 2 && r == 1 {
        "!@#$%^&*()"
    } else if layer == 2 && r == 2 {
        "+=[]{}:;'."
    } else {
        ""
    }
}

/// The bottom row: wide special keys.
pub open spec fn special_row() -> Seq<Key> {
    seq![Key::Layer, Key::Space, Key::Backspace, Key::Confirm]
}

/// Keys in row `row` of `layer`: a character row, or the special row last.
pub open spec fn row_width(layer: int, row: int) -> int {
    if row < 3 {
        char_row(layer, row).len() as int
    } else {
        4
    }
}

/// The key at `col` of row `row` of `layer`.
pub open spec fn key_at(layer: int, row: int, col: int) -> Key {
    if row < 3 {
        Key::Glyph(char_row(layer, row)[col])
    } else {
        special_row()[col]
    }
}

/// `keys` is row `row` of `layer`.
pub open spec fn is_row(keys: Seq<Key>, layer: int, row: int) -> bool {
    &&& keys.len() == row_width(layer, row)
    &&& forall|c: int| 0 <= c < keys.len() ==> #[trigger] keys[c] == key_at(layer, row, c)
}

/// `rows` is the grid of `layer`: three character rows, the special row
/// last.
pub open spec fn is_grid(rows: Seq<Vec<Key>>, layer: int) -> bool {
    &&& rows.len() == 4
    &&& forall|r: int| 0 <= r < 4 ==> is_row(#[trigger] rows[r]@, layer, r)
}

/// `x` wrapped onto `0..w`, as `rem_euclid` gives it.
fn wrap_index(x: i64, w: i64) -> (r: i64)
    requires
        0 < w,
        x > i64::MIN,
    ensures
        r == x % w,
        0 <= r < w,
{
    if x >= 0 {
        x % w
    } else {
        let y: i64 = -x;
        let m: i64 = y % w;
        proof {
            let q = y / w;
            vstd::arithmetic::div_mod::lemma_fundamental_div_mod(y as int, w as int);
            if m == 0 {
                assert(x == (-q) * w + 0) by (nonlinear_arith)
                    requires
                        y == w * q + m,
                        x == -y,
                        m == 0,
                ;
                vstd::arithmetic::div_mod::lemma_fundamental_div_mod_converse(
                    x as int,
                    w as int,
                    -q,
                    0,
                );
            } else {
                assert(x == (-q - 1) * w + (w - m)) by (nonlinear_arith)
                    requires
                        y == w * q + m,
                        x == -y,
                ;
                vstd::arithmetic::div_mod::lemma_fundamental_div_mod_converse(
                    x as int,
                    w as int,
                    -q - 1,
                    w - m,
                );
            }
        }
        if m == 0 {
            0
        } else {
            w - m
        }
    }
}

fn glyph(c: char) -> (k: Key)
    ensures
        k == Key::Glyph(c),
{
    Key::Glyph(c)
}

fn keys_of(chars: &Vec<char>) -> (r: Vec<Key>)
    ensures
        r@.len() == chars@.len(),
        forall|i: int| 0 <= i < chars@.len() ==> #[trigger] r@[i] == Key::Glyph(chars@[i]),
{
    let mut keys: Vec<Key> = Vec::new();
    for k in 0..chars.len()
        invariant
            keys@.len() == k,
            forall|i: int| 0 <= i < k ==> #[trigger] keys@[i] == Key::Glyph(chars@[i]),
    {
        keys.push(glyph(chars[k]));
    }
    keys
}

/// The name shown on the layer key: that of the layer it switches to.
pub open spec fn layer_name_of(layer: int) -> Seq<char> {
    let next = (layer + 1) % 3;
    if next == 0 {
        "abc"@
    } else if next == 1 {
        "ABC"@
    } else {
        "123"@
    }
}

proof fn lemma_row_widths(layer: int)
    requires
        0 <= layer < 3,
    ensures
        forall|r: int| 0 <= r < 4 ==> 1 <= #[trigger] row_width(layer, r) <= 10,
{
    reveal_strlit("qwertyuiop");
    reveal_strlit("asdfghjkl-");
    reveal_strlit("zxcvbnm._");
    reveal_strlit("QWERTYUIOP");
    reveal_strlit("ASDFGHJKL-");
    reveal_strlit("ZXCVBNM._");
    reveal_strlit("1234567890");
    reveal_strlit("!@#$%^&*()");
    reveal_strlit("+=[]{}:;'.");
}

/// ASCII uppercase of one char; everything outside `a`..=`z` is kept.
pub open spec fn upper_c(c: char) -> char {
    if 'a' <= c && c <= 'z' {
        ((c as u32) - 32) as char
    } else {
        c
    }
}

/// The upper-case layer is the lower-case one shifted: its keys sit where
/// the lower-case ones do, each letter in upper case and every other key as
/// it is.
pub proof fn lemma_upper_layer(r: int, c: int)
    requires
        0 <= r < 3,
        0 <= c < char_row(0, r).len(),
    ensures
        char_row(1, r).len() == char_row(0, r).len(),
        char_row(1, r)[c] == upper_c(char_row(0, r)[c]),
{
    reveal_strlit("qwertyuiop");
    reveal_strlit("asdfghjkl-");
    reveal_strlit("zxcvbnm._");
    reveal_strlit("QWERTYUIOP");
    reveal_strlit("ASDFGHJKL-");
    reveal_strlit("ZXCVBNM._");
    reveal_strlit("1234567890");
    reveal_strlit("!@#$%^&*()");
    reveal_strlit("+=[]{}:;'.");
    if r == 0 {
        if c == 0 {
            assert(char_row(1, 0)[0] == 'Q' && char_row(0, 0)[0] == 'q');
        } else if c == 1 {
            assert(char_row(1, 0)[1] == 'W' && char_row(0, 0)[1] == 'w');
        } else if c == 2 {
            assert(char_row(1, 0)[2] == 'E' && char_row(0, 0)[2] == 'e');
        } else if c == 3 {
            assert(char_row(1, 0)[3] == 'R' && char_row(0, 0)[3] == 'r');
        } else if c == 4 {
            assert(char_row(1, 0)[4] == 'T' && char_row(0, 0)[4] == 't');
        } else if c == 5 {
            assert(char_row(1, 0)[5] == 'Y' && char_row(0, 0)[5] == 'y');
        } else if c == 6 {
            assert(char_row(1, 0)[6] == 'U' && char_row(0, 0)[6] == 'u');
        } else if c == 7 {
            assert(char_row(1, 0)[7] == 'I' && char_row(0, 0)[7] == 'i');
        } else if c == 8 {
            assert(char_row(1, 0)[8] == 'O' && char_row(0, 0)[8] == 'o');
        } else if c == 9 {
            assert(char_row(1, 0)[9] == 'P' && char_row(0, 0)[9] == 'p');
        }
    } else if r == 1 {
        if c == 0 {
            assert(char_row(1, 1)[0] == 'A' && char_row(0, 1)[0] == 'a');
        } else if c == 1 {
            assert(char_row(1, 1)[1] == 'S' && char_row(0, 1)[1] == 's');
        } else if c == 2 {
            assert(char_row(1, 1)[2] == 'D' && char_row(0, 1)[2] == 'd');
        } else if c == 3 {
            assert(char_row(1, 1)[3] == 'F' && char_row(0, 1)[3] == 'f');
        } else if c == 4 {
            assert(char_row(1, 1)[4] == 'G' && char_row(0, 1)[4] == 'g');
        } else if c == 5 {
            assert(char_row(1, 1)[5] == 'H' && char_row(0, 1)[5] == 'h');
        } else if c == 6 {
            assert(char_row(1, 1)[6] == 'J' && char_row(0, 1)[6] == 'j');
        } else if c == 7 {
            assert(char_row(1, 1)[7] == 'K' && char_row(0, 1)[7] == 'k');
        } else if c == 8 {
            assert(char_row(1, 1)[8] == 'L' && char_row(0, 1)[8] == 'l');
        } else if c == 9 {
            assert(char_row(1, 1)[9] == '-' && char_row(0, 1)[9] == '-');
        }
    } else if r == 2 {
        if c == 0 {
            assert(char_row(1, 2)[0] == 'Z' && char_row(0, 2)[0] == 'z');
        } else if c == 1 {
            assert(char_row(1, 2)[1] == 'X' && char_row(0, 2)[1] == 'x');
        } else if c == 2 {
            assert(char_row(1, 2)[2] == 'C' && char_row(0, 2)[2] == 'c');
        } else if c == 3 {
            assert(char_row(1, 2)[3] == 'V' && char_row(0, 2)[3] == 'v');
        } else if c == 4 {
            assert(char_row(1, 2)[4] == 'B' && char_row(0, 2)[4] == 'b');
        } else if c == 5 {
            assert(char_row(1, 2)[5] == 'N' && char_row(0, 2)[5] == 'n');
        } else if c == 6 {
            assert(char_row(1, 2)[6] == 'M' && char_row(0, 2)[6] == 'm');
        } else if c == 7 {
            assert(char_row(1, 2)[7] == '.' && char_row(0, 2)[7] == '.');
        } else if c == 8 {
            assert(char_row(1, 2)[8] == '_' && char_row(0, 2)[8] == '_');
        }
    }
}

/// Every letter and digit can be typed: each of `a`..=`z` has a key on the
/// lower-case layer (so, by [`lemma_upper_layer`], its upper case one on
/// the upper-case layer), and each digit a key on the symbols layer, as do
/// `.`, `:`, `[` and `]`, so a whole address is typed without leaving it.
pub proof fn lemma_keys_cover(ch: char)
    ensures
        'a' <= ch <= 'z' ==> exists|r: int, c: int|
            0 <= r < 3 && 0 <= c < char_row(0, r).len() && #[trigger] char_row(0, r)[c] == ch,
        ('0' <= ch <= '9' || ch == '.' || ch == ':' || ch == '[' || ch == ']') ==> exists|
            r: int,
            c: int,
        | 0 <= r < 3 && 0 <= c < char_row(2, r).len() && #[trigger] char_row(2, r)[c] == ch,
{
    reveal_strlit("qwertyuiop");
    reveal_strlit("asdfghjkl-");
    reveal_strlit("zxcvbnm._");
    reveal_strlit("QWERTYUIOP");
    reveal_strlit("ASDFGHJKL-");
    reveal_strlit("ZXCVBNM._");
    reveal_strlit("1234567890");
    reveal_strlit("!@#$%^&*()");
    reveal_strlit("+=[]{}:;'.");
    if 'a' <= ch <= 'z' {
        if ch == 'a' {
            assert(char_row(0, 1)[0] == ch);
        } else if ch == 'b' {
            assert(char_row(0, 2)[4] == ch);
        } else if ch == 'c' {
            assert(char_row(0, 2)[2] == ch);
        } else if ch == 'd' {
            assert(char_row(0, 1)[2] == ch);
        } else if ch == 'e' {
            assert(char_row(0, 0)[2] == ch);
        } else if ch == 'f' {
            assert(char_row(0, 1)[3] == ch);
        } else if ch == 'g' {
            assert(char_row(0, 1)[4] == ch);
        } else if ch == 'h' {
            assert(char_row(0, 1)[5] == ch);
        } else if ch == 'i' {
            assert(char_row(0, 0)[7] == ch);
        } else if ch == 'j' {
            assert(char_row(0, 1)[6] == ch);
        } else if ch == 'k' {
            assert(char_row(0, 1)[7] == ch);
        } else if ch == 'l' {
            assert(char_row(0, 1)[8] == ch);
        } else if ch == 'm' {
            assert(char_row(0, 2)[6] == ch);
        } else if ch == 'n' {
            assert(char_row(0, 2)[5] == ch);
        } else if ch == 'o' {
            assert(char_row(0, 0)[8] == ch);
        } else if ch == 'p' {
            assert(char_row(0, 0)[9] == ch);
        } else if ch == 'q' {
            assert(char_row(0, 0)[0] == ch);
        } else if ch == 'r' {
            assert(char_row(0, 0)[3] == ch);
        } else if ch == 's' {
            assert(char_row(0, 1)[1] == ch);
        } else if ch == 't' {
            assert(char_row(0, 0)[4] == ch);
        } else if ch == 'u' {
            assert(char_row(0, 0)[6] == ch);
        } else if ch == 'v' {
            assert(char_row(0, 2)[3] == ch);
        } else if ch == 'w' {
            assert(char_row(0, 0)[1] == ch);
        } else if ch == 'x' {
            assert(char_row(0, 2)[1] == ch);
        } else if ch == 'y' {
            assert(char_row(0, 0)[5] == ch);
        } else if ch == 'z' {
            assert(char_row(0, 2)[0] == ch);
        }
    }
    if '0' <= ch <= '9' || ch == '.' || ch == ':' || ch == '[' || ch == ']' {
        if ch == '0' {
            assert(char_row(2, 0)[9] == ch);
        } else if ch == '1' {
            assert(char_row(2, 0)[0] == ch);
        } else if ch == '2' {
            assert(char_row(2, 0)[1] == ch);
        } else if ch == '3' {
            assert(char_row(2, 0)[2] == ch);
        } else if ch == '4' {
            assert(char_row(2, 0)[3] == ch);
        } else if ch == '5' {
            assert(char_row(2, 0)[4] == ch);
        } else if ch == '6' {
            assert(char_row(2, 0)[5] == ch);
        } else if ch == '7' {
            assert(char_row(2, 0)[6] == ch);
        } else if ch == '8' {
            assert(char_row(2, 0)[7] == ch);
        } else if ch == '9' {
            assert(char_row(2, 0)[8] == ch);
        } else if ch == '.' {
            assert(char_row(2, 2)[9] == ch);
        } else if ch == ':' {
            assert(char_row(2, 2)[6] == ch);
        } else if ch == '[' {
            assert(char_row(2, 2)[2] == ch);
        } else if ch == ']' {
            assert(char_row(2, 2)[3] == ch);
        }
    }
}

/// `b` with `c` typed, unless already at the cap.
pub open spec fn typed(b: Seq<char>, c: char) -> Seq<char> {
    if b.len() < MAX_LEN {
        b.push(c)
    } else {
        b
    }
}

/// `b` with its last character erased, if any.
pub open spec fn erased(b: Seq<char>) -> Seq<char> {
    if b.len() > 0 {
        b.drop_last()
    } else {
        b
    }
}

pub struct Osk {
    pub active: bool,
    pub target: OskTarget,
    pub buffer: String,
    pub row: usize,
    pub col: usize,
    pub layer: usize,
}

/// The key under the cursor, if the column reaches one.
pub open spec fn key_under(layer: int, row: int, col: int) -> Option<Key> {
    if 0 <= col < row_width(layer, row) {
        Some(key_at(layer, row, col))
    } else {
        None
    }
}

impl Osk {
    /// A layer, a row and a column the grid has room for.
    pub open spec fn wf(&self) -> bool {
        &&& self.layer < LAYER_COUNT
        &&& self.row < 4
        &&& self.col < 10
    }

    pub fn new() -> (r: Self)
        ensures
            !r.active,
            r.target == OskTarget::Alias,
            r.buffer@ == Seq::<char>::empty(),
            r.row == 0 && r.col == 0 && r.layer == 0,
    {
        Osk {
            active: false,
            target: OskTarget::Alias,
            buffer: String::new(),
            row: 0,
            col: 0,
            layer: 0,
        }
    }

    pub fn open(&mut self, target: OskTarget, initial: &str)
        ensures
            final(self).active,
            final(self).target == target,
            final(self).buffer@ == initial@,
            final(self).row == 0 && final(self).col == 0,
            final(self).layer == opening_layer(target),
            final(self).wf(),
    {
        self.active = true;
        self.target = target;
        self.buffer = string_of(&str_chars(initial));
        self.row = 0;
        self.col = 0;
        self.layer = target.layer();
    }

    /// Rows of the current layer, the special row last.
    pub fn rows(&self) -> (r: Vec<Vec<Key>>)
        requires
            self.layer < LAYER_COUNT,
        ensures
            is_grid(r@, self.layer as int),
    {
        let mut rows: Vec<Vec<Key>> = Vec::new();
        for r in 0..3
            invariant
                rows@.len() == r,
                forall|k: int| 0 <= k < r ==> is_row(#[trigger] rows@[k]@, self.layer as int, k),
        {
            let chars = str_chars(char_row_str(self.layer, r));
            let keys = keys_of(&chars);
            rows.push(keys);
            assert(is_row(rows@[r as int]@, self.layer as int, r as int));
        }
        rows.push(vec![Key::Layer, Key::Space, Key::Backspace, Key::Confirm]);
        assert(rows@[3]@ =~= special_row());
        assert(is_row(rows@[3]@, self.layer as int, 3));
        rows
    }

    pub fn layer_name(&self) -> (r: &'static str)
        ensures
            r@ == layer_name_of(self.layer as int),
    {
        let next = (self.layer % 3 + 1) % 3;
        assert(next as int == (self.layer + 1) % 3);
        if next == 0 {
            "abc"
        } else if next == 1 {
            "ABC"
        } else {
            "123"
        }
    }

    /// Move the cursor: rows wrap; a horizontal step wraps within the row,
    /// and switching rows clamps the column onto the new one.
    pub fn move_cursor(&mut self, dx: i32, dy: i32)
        requires
            old(self).wf(),
            old(self).row + dy <= i32::MAX,
            dx != 0 ==> old(self).col + dx <= i32::MAX,
        ensures
            final(self).wf(),
            final(self).row == (old(self).row + dy) % 4,
            final(self).col == ({
                let width = row_width(old(self).layer as int, final(self).row as int);
                if dx != 0 {
                    (old(self).col + dx) % (width as int)
                } else if old(self).col < width - 1 {
                    old(self).col as int
                } else {
                    width - 1
                }
            }),
            final(self).active == old(self).active,
            final(self).target == old(self).target,
            final(self).buffer == old(self).buffer,
            final(self).layer == old(self).layer,
    {
        proof {
            lemma_row_widths(self.layer as int);
        }
        let rows = self.rows();
        let y: i64 = self.row as i64 + dy as i64;
        let ry: i64 = y % 4;
        let row: i64 = if ry < 0 { ry + 4 } else { ry };
        assert(row == y % 4);
        self.row = row as usize;
        assert(is_row(rows@[self.row as int]@, self.layer as int, self.row as int));
        let width: usize = rows[self.row].len();
        if dx != 0 {
            let x: i64 = self.col as i64 + dx as i64;
            let w: i64 = width as i64;
            let col: i64 = wrap_index(x, w);
            self.col = col as usize;
        } else {
            self.col = if self.col < width - 1 { self.col } else { width - 1 };
        }
    }

    /// A: press the key under the cursor.
    pub fn press(&mut self) -> (r: Option<OskEvent>)
        requires
            old(self).wf(),
        ensures
            final(self).wf(),
            final(self).row == old(self).row && final(self).col == old(self).col,
            final(self).target == old(self).target,
            final(self).buffer@.len() <= if old(self).buffer@.len() < MAX_LEN {
                MAX_LEN as int
            } else {
                old(self).buffer@.len() as int
            },
            match key_under(old(self).layer as int, old(self).row as int, old(self).col as int) {
                None => r is None && final(self).buffer == old(self).buffer && final(self).layer
                    == old(self).layer && final(self).active == old(self).active,
                Some(Key::Glyph(c)) => r is None && final(self).buffer@ == typed(
                    old(self).buffer@,
                    c,
                ) && final(self).layer == old(self).layer && final(self).active == old(
                    self,
                ).active,
                Some(Key::Space) => r is None && final(self).buffer@ == typed(
                    old(self).buffer@,
                    ' ',
                ) && final(self).layer == old(self).layer && final(self).active == old(
                    self,
                ).active,
                Some(Key::Backspace) => r is None && final(self).buffer@ == erased(
                    old(self).buffer@,
                ) && final(self).layer == old(self).layer && final(self).active == old(
                    self,
                ).active,
                Some(Key::Layer) => r is None && final(self).buffer == old(self).buffer
                    && final(self).layer == (old(self).layer + 1) % 3 && final(self).active == old(
                    self,
                ).active,
                Some(Key::Confirm) => !final(self).active && final(self).buffer == old(self).buffer
                    && final(self).layer == old(self).layer && (r matches Some(
                    OskEvent::Committed(t, s),
                ) && t == old(self).target && s@ == trim(old(self).buffer@)),
            },
    {
        proof {
            lemma_row_widths(self.layer as int);
        }
        let rows = self.rows();
        assert(is_row(rows@[self.row as int]@, self.layer as int, self.row as int));
        if self.col >= rows[self.row].len() {
            return None;
        }
        let key = rows[self.row][self.col];
        match key {
            Key::Glyph(c) => self.push(c),
            Key::Space => self.push(' '),
            Key::Backspace => self.erase(),
            Key::Layer => self.cycle_layer(),
            Key::Confirm => {
                return Some(self.commit());
            },
        }
        None
    }

    /// X: drop the last character. Leaving the keyboard is B's job, so an
    /// empty buffer simply has nothing to erase.
    pub fn erase(&mut self)
        ensures
            final(self).buffer@ == erased(old(self).buffer@),
            final(self).active == old(self).active,
            final(self).target == old(self).target,
            final(self).row == old(self).row && final(self).col == old(self).col,
            final(self).layer == old(self).layer,
    {
        let chars = str_chars(self.buffer.as_str());
        if chars.len() > 0 {
            let kept = crate::text::slice_to_vec(&chars, 0, chars.len() - 1);
            assert(kept@ =~= chars@.drop_last());
            self.buffer = string_of(&kept);
        }
    }

    /// B: leave without committing, whatever has been typed.
    pub fn cancel(&mut self) -> (r: OskEvent)
        ensures
            !final(self).active,
            r is Cancelled,
            final(self).buffer == old(self).buffer,
            final(self).target == old(self).target,
            final(self).row == old(self).row && final(self).col == old(self).col,
            final(self).layer == old(self).layer,
    {
        self.active = false;
        OskEvent::Cancelled
    }

    /// Start: commit regardless of cursor position; the text is trimmed.
    pub fn commit(&mut self) -> (r: OskEvent)
        ensures
            !final(self).active,
            r matches OskEvent::Committed(t, s) && t == old(self).target && s@ == trim(
                old(self).buffer@,
            ),
            final(self).buffer == old(self).buffer,
            final(self).target == old(self).target,
            final(self).row == old(self).row && final(self).col == old(self).col,
            final(self).layer == old(self).layer,
    {
        self.active = false;
        let text = string_of(&trim_chars(&str_chars(self.buffer.as_str())));
        OskEvent::Committed(self.target, text)
    }

    /// Select: next layer.
    pub fn cycle_layer(&mut self)
        requires
            old(self).layer < LAYER_COUNT,
        ensures
            final(self).layer == (old(self).layer + 1) % 3,
            final(self).active == old(self).active,
            final(self).target == old(self).target,
            final(self).buffer == old(self).buffer,
            final(self).row == old(self).row && final(self).col == old(self).col,
    {
        self.layer = if self.layer < 2 { self.layer + 1 } else { 0 };
    }

    fn push(&mut self, c: char)
        ensures
            final(self).buffer@ == typed(old(self).buffer@, c),
            final(self).active == old(self).active,
            final(self).target == old(self).target,
            final(self).row == old(self).row && final(self).col == old(self).col,
            final(self).layer == old(self).layer,
    {
        let chars = str_chars(self.buffer.as_str());
        if chars.len() < MAX_LEN {
            self.buffer = string_of(&concat(&chars, &vec![c]));
            assert(chars@ + seq![c] =~= chars@.push(c));
        }
    }
}

} // verus!
