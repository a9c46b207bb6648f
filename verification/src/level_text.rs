use vstd::prelude::*;
use crate::geometry::TilePos;
use crate::level::{ButtonTile, DoorSpot, DoorTile, Level, TeleporterTile};

verus! {

// A level as text: one item per line, `#` starts a comment, words are
// separated by spaces, tabs or carriage returns, numbers are decimal with an
// optional `-`:
//
//   wall X Y
//   start X Y              the tile where the player starts
//   button X Y [X Y]...    the button's tile, then the tiles it is wired to
//   hdoor X Y / vdoor X Y  a door drawn horizontally / vertically
//   teleporter X Y [X Y]   the teleporter's tile, then its destination
//   bulb X Y
//   machine X Y

/// The item words of the level text.
#[derive(Clone, Copy, Debug, PartialEq, Eq, Structural)]
pub enum Kw {
    Wall,
    Start,
    Button,
    HDoor,
    VDoor,
    Teleporter,
    Bulb,
    Machine,
}

/// Why a level text was refused.
#[derive(Clone, Copy, Debug, PartialEq, Eq, Structural)]
pub enum LevelError {
    /// The line (counted from 1) is not an item.
    BadLine(usize),
    NoStart,
    NoMachine,
}

/// The item word spelled by `w`.
pub open spec fn keyword(w: Seq<u8>) -> Option<Kw> {
    if w.len() == 4 && w[0] == 119u8 && w[1] == 97u8 && w[2] == 108u8 && w[3] == 108u8 {
        Some(Kw::Wall)
    } else if w.len() == 5 && w[0] == 115u8 && w[1] == 116u8 && w[2] == 97u8 && w[3] == 114u8 && w[4] == 116u8 {
        Some(Kw::Start)
    } else if w.len() == 6 && w[0] == 98u8 && w[1] == 117u8 && w[2] == 116u8 && w[3] == 116u8 && w[4] == 111u8 && w[5] == 110u8 {
        Some(Kw::Button)
    } else if w.len() == 5 && w[0] == 104u8 && w[1] == 100u8 && w[2] == 111u8 && w[3] == 111u8 && w[4] == 114u8 {
        Some(Kw::HDoor)
    } else if w.len() == 5 && w[0] == 118u8 && w[1] == 100u8 && w[2] == 111u8 && w[3] == 111u8 && w[4] == 114u8 {
        Some(Kw::VDoor)
    } else if w.len() == 10 && w[0] == 116u8 && w[1] == 101u8 && w[2] == 108u8 && w[3] == 101u8 && w[4] == 112u8 && w[5] == 111u8 && w[6] == 114u8 && w[7] == 116u8 && w[8] == 101u8 && w[9] == 114u8 {
        Some(Kw::Teleporter)
    } else if w.len() == 4 && w[0] == 98u8 && w[1] == 117u8 && w[2] == 108u8 && w[3] == 98u8 {
        Some(Kw::Bulb)
    } else if w.len() == 7 && w[0] == 109u8 && w[1] == 97u8 && w[2] == 99u8 && w[3] == 104u8 && w[4] == 105u8 && w[5] == 110u8 && w[6] == 101u8 {
        Some(Kw::Machine)
    } else {
        None
    }
}

pub open spec fn is_digit(c: u8) -> bool {
    48 <= c <= 57
}

pub open spec fn all_digits(ds: Seq<u8>) -> bool {
    forall|i: int| 0 <= i < ds.len() ==> is_digit(#[trigger] ds[i])
}

/// The value of a run of decimal digits.
pub open spec fn digits_value(ds: Seq<u8>) -> int
    decreases ds.len(),
{
    if ds.len() == 0 {
        0
    } else {
        digits_value(ds.drop_last()) * 10 + (ds.last() - 48)
    }
}

/// The number spelled by `w`: an optional `-`, then at least one digit, and a
/// value that fits an `i32`.
pub open spec fn number(w: Seq<u8>) -> Option<i32> {
    let neg = w.len() > 0 && w[0] == 45u8;
    let ds = if neg {
        w.drop_first()
    } else {
        w
    };
    if ds.len() == 0 || !all_digits(ds) {
        None
    } else {
        let v = if neg {
            -digits_value(ds)
        } else {
            digits_value(ds)
        };
        if i32::MIN <= v <= i32::MAX {
            Some(v as i32)
        } else {
            None
        }
    }
}

/// The tiles spelled by a run of numbers, taken in pairs.
pub open spec fn tiles_of(nums: Seq<i32>) -> Seq<TilePos> {
    Seq::new(nums.len() / 2, |i: int| TilePos { x: nums[2 * i], y: nums[2 * i + 1] })
}

/// A level as it is read, so far.
pub struct DraftView {
    pub walls: Seq<TilePos>,
    pub start: Option<TilePos>,
    pub buttons: Seq<(TilePos, Seq<TilePos>)>,
    pub doors: Seq<DoorSpot>,
    pub teleporters: Seq<TeleporterTile>,
    pub bulbs: Seq<TilePos>,
    pub machine: Option<TilePos>,
}

pub open spec fn empty_draft() -> DraftView {
    DraftView {
        walls: Seq::empty(),
        start: None,
        buttons: Seq::empty(),
        doors: Seq::empty(),
        teleporters: Seq::empty(),
        bulbs: Seq::empty(),
        machine: None,
    }
}

/// One item added to the level: `None` when the numbers do not fit the item.
/// A second `start` or `machine` replaces the first.
pub open spec fn add_item(d: DraftView, kw: Kw, nums: Seq<i32>) -> Option<DraftView> {
    let ts = tiles_of(nums);
    match kw {
        Kw::Wall => if nums.len() == 2 {
            Some(DraftView { walls: d.walls.push(ts[0]), ..d })
        } else {
            None
        },
        Kw::Start => if nums.len() == 2 {
            Some(DraftView { start: Some(ts[0]), ..d })
        } else {
            None
        },
        Kw::Button => if nums.len() >= 2 && nums.len() % 2 == 0 {
            Some(DraftView { buttons: d.buttons.push((ts[0], ts.drop_first())), ..d })
        } else {
            None
        },
        Kw::HDoor => if nums.len() == 2 {
            Some(DraftView { doors: d.doors.push(DoorSpot { position: ts[0], kind: DoorTile::Horizontal }), ..d })
        } else {
            None
        },
        Kw::VDoor => if nums.len() == 2 {
            Some(DraftView { doors: d.doors.push(DoorSpot { position: ts[0], kind: DoorTile::Vertical }), ..d })
        } else {
            None
        },
        Kw::Teleporter => if nums.len() == 2 || nums.len() == 4 {
            Some(DraftView {
                teleporters: d.teleporters.push(TeleporterTile {
                    position: ts[0],
                    connection: if nums.len() == 4 { Some(ts[1]) } else { None },
                }),
                ..d
            })
        } else {
            None
        },
        Kw::Bulb => if nums.len() == 2 {
            Some(DraftView { bulbs: d.bulbs.push(ts[0]), ..d })
        } else {
            None
        },
        Kw::Machine => if nums.len() == 2 {
            Some(DraftView { machine: Some(ts[0]), ..d })
        } else {
            None
        },
    }
}

/// Spaces, tabs and carriage returns part the words of a line.
pub open spec fn is_space(c: u8) -> bool {
    c == 32u8 || c == 9u8 || c == 13u8
}

/// The lines of a text: what lies between its line breaks (the last line may
/// be empty).
pub open spec fn lines(text: Seq<u8>) -> Seq<Seq<u8>>
    decreases text.len(),
{
    if text.len() == 0 {
        seq![Seq::empty()]
    } else {
        let ls = lines(text.drop_last());
        if text.last() == 10u8 {
            ls.push(Seq::empty())
        } else {
            ls.update(ls.len() - 1, ls.last().push(text.last()))
        }
    }
}

pub open spec fn has_hash(s: Seq<u8>) -> bool {
    exists|i: int| 0 <= i < s.len() && s[i] == 35u8
}

/// A line without its comment: what comes before its first `#`.
pub open spec fn uncommented(s: Seq<u8>) -> Seq<u8>
    decreases s.len(),
{
    if s.len() > 0 && has_hash(s) {
        uncommented(s.drop_last())
    } else {
        s
    }
}

/// The words of a line: its longest runs of bytes that are not spaces.
pub open spec fn words(s: Seq<u8>) -> Seq<Seq<u8>>
    decreases s.len(),
{
    if s.len() == 0 {
        Seq::empty()
    } else {
        let ws = words(s.drop_last());
        let c = s.last();
        if is_space(c) {
            ws
        } else if s.len() >= 2 && !is_space(s[s.len() - 2]) {
            ws.update(ws.len() - 1, ws.last().push(c))
        } else {
            ws.push(seq![c])
        }
    }
}

/// The words after the first.
pub open spec fn rest_words(ws: Seq<Seq<u8>>) -> Seq<Seq<u8>> {
    if ws.len() == 0 {
        ws
    } else {
        ws.drop_first()
    }
}

pub open spec fn all_numbers(ws: Seq<Seq<u8>>) -> bool {
    forall|i: int| 0 <= i < ws.len() ==> (#[trigger] number(ws[i])) is Some
}

/// The numbers that words spell.
pub open spec fn numbers(ws: Seq<Seq<u8>>) -> Seq<i32> {
    ws.map_values(|w: Seq<u8>| number(w).unwrap())
}

/// One line read into the level: a line without words adds nothing; a line
/// whose first word names an item and whose other words are numbers adds that
/// item, when the numbers fit it; any other line is bad (`None`).
pub open spec fn read_line(d: DraftView, line: Seq<u8>) -> Option<DraftView> {
    let ws = words(uncommented(line));
    if ws.len() == 0 {
        Some(d)
    } else {
        match keyword(ws[0]) {
            Some(kw) => if all_numbers(ws.drop_first()) {
                add_item(d, kw, numbers(ws.drop_first()))
            } else {
                None
            },
            None => None,
        }
    }
}

/// The lines read in order: the level, or the number (counted from 1) of the
/// first bad line.
pub open spec fn read_lines(ls: Seq<Seq<u8>>) -> Result<DraftView, nat>
    decreases ls.len(),
{
    if ls.len() == 0 {
        Ok(empty_draft())
    } else {
        match read_lines(ls.drop_last()) {
            Err(n) => Err(n),
            Ok(d) => match read_line(d, ls.last()) {
                Some(d2) => Ok(d2),
                None => Err(ls.len()),
            },
        }
    }
}

/// What a level text reads as: the level, or why it was refused (the first bad
/// line, else a missing start, else a missing machine).
pub open spec fn read_level(text: Seq<u8>) -> Result<DraftView, LevelError> {
    match read_lines(lines(text)) {
        Err(n) => Err(LevelError::BadLine(n as usize)),
        Ok(d) => if d.start is None {
            Err(LevelError::NoStart)
        } else if d.machine is None {
            Err(LevelError::NoMachine)
        } else {
            Ok(d)
        },
    }
}

/// The reading of the text so far: the level, or the first bad line; the
/// current line's number, its first word, its numbers, whether one of its
/// later words is not a number, the word being read, and whether a comment
/// has started.
struct Scan {
    draft: DraftView,
    error: Option<nat>,
    line_no: nat,
    first: Option<Seq<u8>>,
    nums: Seq<i32>,
    bad: bool,
    word: Seq<u8>,
    comment: bool,
}

spec fn start_scan() -> Scan {
    Scan {
        draft: empty_draft(),
        error: None,
        line_no: 1,
        first: None,
        nums: Seq::empty(),
        bad: false,
        word: Seq::empty(),
        comment: false,
    }
}

/// The word being read is complete: the first of a line names the item, the
/// others are numbers.
spec fn end_word(st: Scan) -> Scan {
    if st.word.len() == 0 {
        st
    } else if st.first is None {
        Scan { first: Some(st.word), word: Seq::empty(), ..st }
    } else {
        match number(st.word) {
            Some(v) => Scan { nums: st.nums.push(v), word: Seq::empty(), ..st },
            None => Scan { bad: true, word: Seq::empty(), ..st },
        }
    }
}

/// The line is complete: an empty line adds nothing, an item line adds its
/// item, anything else is the first bad line (unless one came before).
spec fn end_line(st: Scan) -> Scan {
    let e = end_word(st);
    let added: Option<DraftView> = match e.first {
        None => Some(e.draft),
        Some(w) => if e.bad {
            None
        } else {
            match keyword(w) {
                Some(kw) => add_item(e.draft, kw, e.nums),
                None => None,
            }
        },
    };
    Scan {
        draft: if e.error is None && added is Some {
            added.unwrap()
        } else {
            e.draft
        },
        error: if e.error is None && added is None {
            Some(e.line_no)
        } else {
            e.error
        },
        line_no: e.line_no + 1,
        first: None,
        nums: Seq::empty(),
        bad: false,
        word: Seq::empty(),
        comment: false,
    }
}

spec fn scan_byte(st: Scan, c: u8) -> Scan {
    if c == 10u8 {
        end_line(st)
    } else if st.comment {
        st
    } else if c == 35u8 {
        Scan { comment: true, ..end_word(st) }
    } else if c == 32u8 || c == 9u8 || c == 13u8 {
        end_word(st)
    } else {
        Scan { word: st.word.push(c), ..st }
    }
}

spec fn scan_bytes(bytes: Seq<u8>) -> Scan
    decreases bytes.len(),
{
    if bytes.len() == 0 {
        start_scan()
    } else {
        scan_byte(scan_bytes(bytes.drop_last()), bytes.last())
    }
}

/// The scan state holds, for the line being read, its first word and its
/// other words as numbers (and whether one is not a number), of the words
/// `done`.
spec fn holds_words(st: Scan, done: Seq<Seq<u8>>) -> bool {
    &&& st.first == (if done.len() > 0 { Some(done[0]) } else { None::<Seq<u8>> })
    &&& st.bad == !all_numbers(rest_words(done))
    &&& !st.bad ==> st.nums == numbers(rest_words(done))
}

/// The scan state after reading `text`, in terms of its lines and words.
spec fn scan_matches(st: Scan, text: Seq<u8>) -> bool {
    let ls = lines(text);
    let cur = ls.last();
    let ws = words(uncommented(cur));
    let done = if st.word.len() > 0 { ws.drop_last() } else { ws };
    &&& ls.len() >= 1
    &&& st.line_no == ls.len()
    &&& match read_lines(ls.drop_last()) {
        Ok(d) => st.error is None && st.draft == d,
        Err(n) => st.error == Some(n),
    }
    &&& st.comment == has_hash(cur)
    &&& st.word.len() > 0 ==> {
        &&& !st.comment
        &&& ws.len() > 0
        &&& ws.last() == st.word
        &&& cur.len() > 0
        &&& !is_space(cur.last())
    }
    &&& st.word.len() == 0 && !st.comment ==> cur.len() == 0 || is_space(cur.last())
    &&& holds_words(st, done)
}

proof fn lemma_words_nonempty(s: Seq<u8>)
    requires
        s.len() > 0,
        !is_space(s.last()),
    ensures
        words(s).len() > 0,
    decreases s.len(),
{
    if s.len() >= 2 && !is_space(s[s.len() - 2]) {
        lemma_words_nonempty(s.drop_last());
    }
}

/// Ending the word being read adds it to the line's words.
proof fn lemma_end_word(st: Scan, text: Seq<u8>)
    requires
        scan_matches(st, text),
    ensures
        end_word(st).word.len() == 0,
        end_word(st).comment == st.comment,
        end_word(st).draft == st.draft,
        end_word(st).error == st.error,
        end_word(st).line_no == st.line_no,
        holds_words(end_word(st), words(uncommented(lines(text).last()))),
{
    let ws = words(uncommented(lines(text).last()));
    let e = end_word(st);
    if st.word.len() > 0 {
        let done = ws.drop_last();
        let w = st.word;
        assert(ws =~= done.push(w));
        if done.len() == 0 {
            assert(st.first is None);
            assert(e.first == Some(w));
            assert(ws[0] == w);
            assert(rest_words(ws) =~= Seq::<Seq<u8>>::empty());
            assert(rest_words(done) =~= Seq::<Seq<u8>>::empty());
            assert(numbers(Seq::<Seq<u8>>::empty()) =~= Seq::<i32>::empty());
            assert(all_numbers(Seq::<Seq<u8>>::empty()));
            assert(holds_words(e, ws));
        } else {
            assert(st.first is Some);
            assert(ws[0] == done[0]);
            let r = rest_words(done);
            assert(rest_words(ws) =~= r.push(w));
            if number(w) is Some {
                assert(numbers(r.push(w)) =~= numbers(r).push(number(w).unwrap()));
                if all_numbers(r) {
                    assert forall|i: int| 0 <= i < r.push(w).len() implies (#[trigger] number(r.push(w)[i])) is Some by {
                        if i < r.len() {
                            assert(r.push(w)[i] == r[i]);
                            assert(number(r[i]) is Some);
                        }
                    }
                    assert(all_numbers(r.push(w)));
                } else {
                    let i = choose|i: int| 0 <= i < r.len() && !(number(r[i]) is Some);
                    assert(r.push(w)[i] == r[i]);
                    assert(!all_numbers(r.push(w)));
                }
                assert(holds_words(e, ws));
            } else {
                assert(r.push(w)[r.len() as int] == w);
                assert(!all_numbers(r.push(w)));
                assert(holds_words(e, ws));
            }
        }
    }
}

/// Ending a line reads it into the level, and starts the next.
proof fn lemma_end_line(st: Scan, text: Seq<u8>)
    requires
        scan_matches(st, text),
    ensures
        match read_lines(lines(text)) {
            Ok(d) => end_line(st).error is None && end_line(st).draft == d,
            Err(n) => end_line(st).error == Some(n),
        },
        scan_matches(end_line(st), text.push(10u8)),
{
    lemma_end_word(st, text);
    let ls = lines(text);
    let t2 = text.push(10u8);
    assert(t2.drop_last() =~= text);
    assert(lines(t2) == ls.push(Seq::empty()));
    assert(lines(t2).drop_last() =~= ls);
    assert(ls =~= ls.drop_last().push(ls.last()));
    let e = end_line(st);
    let empty: Seq<u8> = Seq::empty();
    assert(!has_hash(empty));
    assert(uncommented(empty) == empty);
    assert(words(empty) =~= Seq::<Seq<u8>>::empty());
    assert(numbers(Seq::<Seq<u8>>::empty()) =~= Seq::<i32>::empty());
}

/// The scanner reads a text as its lines and words say.
proof fn lemma_scan(text: Seq<u8>)
    ensures
        scan_matches(scan_bytes(text), text),
    decreases text.len(),
{
    if text.len() == 0 {
        let empty: Seq<u8> = Seq::empty();
        assert(!has_hash(empty));
        assert(words(empty) =~= Seq::<Seq<u8>>::empty());
        assert(lines(text).drop_last() =~= Seq::<Seq<u8>>::empty());
        assert(numbers(Seq::<Seq<u8>>::empty()) =~= Seq::<i32>::empty());
    } else {
        let pre = text.drop_last();
        let c = text.last();
        lemma_scan(pre);
        let st = scan_bytes(pre);
        assert(pre.push(c) =~= text);
        if c == 10u8 {
            lemma_end_line(st, pre);
        } else {
            let ls = lines(pre);
            let cur = ls.last();
            let cur2 = cur.push(c);
            assert(lines(text) == ls.update(ls.len() - 1, cur2));
            assert(lines(text).drop_last() =~= ls.drop_last());
            assert(lines(text).last() == cur2);
            assert(cur2.drop_last() =~= cur);
            assert(cur2.last() == c);
            if st.comment {
                assert(has_hash(cur2)) by {
                    let i = choose|i: int| 0 <= i < cur.len() && cur[i] == 35u8;
                    assert(cur2[i] == 35u8);
                }
                assert(uncommented(cur2) == uncommented(cur));
            } else if c == 35u8 {
                lemma_end_word(st, pre);
                assert(cur2[cur.len() as int] == 35u8);
                assert(uncommented(cur2) == uncommented(cur));
                assert(uncommented(cur) == cur);
            } else {
                assert(!has_hash(cur2)) by {
                    assert forall|i: int| 0 <= i < cur2.len() implies cur2[i] != 35u8 by {
                        if i < cur.len() {
                            assert(cur2[i] == cur[i]);
                        }
                    }
                }
                assert(uncommented(cur2) == cur2);
                assert(uncommented(cur) == cur);
                if is_space(c) {
                    lemma_end_word(st, pre);
                    assert(words(cur2) == words(cur));
                } else {
                    let ws = words(cur);
                    if st.word.len() > 0 {
                        assert(cur2[cur2.len() - 2] == cur.last());
                        assert(words(cur2) == ws.update(ws.len() - 1, ws.last().push(c)));
                        assert(words(cur2).drop_last() =~= ws.drop_last());
                    } else {
                        if cur.len() > 0 {
                            assert(cur2[cur2.len() - 2] == cur.last());
                        }
                        assert(words(cur2) == ws.push(seq![c]));
                        assert(words(cur2).drop_last() =~= ws);
                        assert(st.word.push(c) =~= seq![c]);
                    }
                }
            }
        }
    }
}

/// A level holds what was read.
pub open spec fn level_is(l: Level<TilePos>, d: DraftView) -> bool {
    &&& l.walls@ == d.walls
    &&& Some(l.player_start) == d.start
    &&& l.buttons@.len() == d.buttons.len()
    &&& forall|i: int|
        0 <= i < d.buttons.len() ==> (#[trigger] l.buttons@[i]).position == d.buttons[i].0
            && l.buttons@[i].connections@ == d.buttons[i].1
    &&& l.doors@ == d.doors
    &&& l.teleporters@ == d.teleporters
    &&& l.bulbs@ == d.bulbs
    &&& Some(l.the_machine) == d.machine
}

/// The item word spelled by `w`.
pub fn read_keyword(w: &Vec<u8>) -> (r: Option<Kw>)
    ensures
        r == keyword(w@),
{
    if w.len() == 0 {
        None
    } else if w.len() == 4 && w[0] == 119 && w[1] == 97 && w[2] == 108 && w[3] == 108 {
        Some(Kw::Wall)
    } else if w.len() == 5 && w[0] == 115 && w[1] == 116 && w[2] == 97 && w[3] == 114 && w[4] == 116 {
        Some(Kw::Start)
    } else if w.len() == 6 && w[0] == 98 && w[1] == 117 && w[2] == 116 && w[3] == 116 && w[4] == 111 && w[5] == 110 {
        Some(Kw::Button)
    } else if w.len() == 5 && w[0] == 104 && w[1] == 100 && w[2] == 111 && w[3] == 111 && w[4] == 114 {
        Some(Kw::HDoor)
    } else if w.len() == 5 && w[0] == 118 && w[1] == 100 && w[2] == 111 && w[3] == 111 && w[4] == 114 {
        Some(Kw::VDoor)
    } else if w.len() == 10 && w[0] == 116 && w[1] == 101 && w[2] == 108 && w[3] == 101 && w[4] == 112 && w[5] == 111 && w[6] == 114 && w[7] == 116 && w[8] == 101 && w[9] == 114 {
        Some(Kw::Teleporter)
    } else if w.len() == 4 && w[0] == 98 && w[1] == 117 && w[2] == 108 && w[3] == 98 {
        Some(Kw::Bulb)
    } else if w.len() == 7 && w[0] == 109 && w[1] == 97 && w[2] == 99 && w[3] == 104 && w[4] == 105 && w[5] == 110 && w[6] == 101 {
        Some(Kw::Machine)
    } else {
        None
    }
}

proof fn lemma_digits_value_nonneg(ds: Seq<u8>)
    requires
        forall|i: int| 0 <= i < ds.len() ==> is_digit(#[trigger] ds[i]),
    ensures
        digits_value(ds) >= 0,
    decreases ds.len(),
{
    if ds.len() > 0 {
        lemma_digits_value_nonneg(ds.drop_last());
        assert(is_digit(ds[ds.len() - 1]));
    }
}

/// The number spelled by `w`.
pub fn read_number(w: &Vec<u8>) -> (r: Option<i32>)
    ensures
        r == number(w@),
{
    let n = w.len();
    if n == 0 {
        return None;
    }
    let neg = w[0] == 45;
    let start: usize = if neg { 1 } else { 0 };
    let ghost ds = if neg { w@.drop_first() } else { w@ };
    proof {
        assert(ds =~= w@.subrange(start as int, n as int));
    }
    if start == n {
        return None;
    }
    let mut acc: i64 = 0;
    let mut over = false;
    let mut i: usize = start;
    while i < n
        invariant
            start <= i <= n,
            n == w@.len(),
            n > 0,
            neg == (w@[0] == 45u8),
            start == (if neg { 1usize } else { 0usize }),
            ds == (if neg { w@.drop_first() } else { w@ }),
            ds == w@.subrange(start as int, n as int),
            forall|k: int| start <= k < i ==> is_digit(#[trigger] w@[k]),
            !over ==> acc == digits_value(w@.subrange(start as int, i as int)) && 0 <= acc <= 2147483648,
            over ==> digits_value(w@.subrange(start as int, i as int)) > 2147483648,
        decreases n - i,
    {
        let c = w[i];
        if c < 48 || c > 57 {
            proof {
                assert(ds[i - start] == c);
                assert(!is_digit(ds[i - start]));
                assert(ds.len() > 0);
                let neg_s = w@.len() > 0 && w@[0] == 45u8;
                assert(neg_s == neg);
                let ds_s = if neg_s { w@.drop_first() } else { w@ };
                assert(ds_s == ds);
                assert(!is_digit(ds_s[i - start]));
                assert(!all_digits(ds_s));
                assert(number(w@) is None);
            }
            return None;
        }
        proof {
            let sub = w@.subrange(start as int, i + 1);
            assert(sub.drop_last() =~= w@.subrange(start as int, i as int));
            assert(sub.last() == c);
            assert forall|k: int| 0 <= k < sub.drop_last().len() implies is_digit(#[trigger] sub.drop_last()[k]) by {
                assert(sub.drop_last()[k] == w@[start + k]);
            }
            lemma_digits_value_nonneg(sub.drop_last());
        }
        if !over {
            let v: i64 = acc * 10 + (c - 48) as i64;
            if v > 2147483648 {
                over = true;
            } else {
                acc = v;
            }
        }
        i = i + 1;
    }
    proof {
        assert(w@.subrange(start as int, n as int) == ds);
        assert forall|k: int| 0 <= k < ds.len() implies is_digit(#[trigger] ds[k]) by {
            assert(ds[k] == w@[start + k]);
        }
    }
    if over {
        return None;
    }
    let v: i64 = if neg { -acc } else { acc };
    if v < -2147483648 || v > 2147483647 {
        None
    } else {
        Some(v as i32)
    }
}

/// The tiles spelled by the numbers after the first pair.
fn tiles_after_first(nums: &Vec<i32>) -> (r: Vec<TilePos>)
    requires
        nums@.len() >= 2,
        nums@.len() % 2 == 0,
    ensures
        r@ == tiles_of(nums@).drop_first(),
{
    let mut r: Vec<TilePos> = Vec::new();
    let mut k: usize = 1;
    while k < nums.len() / 2
        invariant
            1 <= k <= nums@.len() / 2,
            nums@.len() % 2 == 0,
            r@ == tiles_of(nums@).drop_first().take(k - 1),
        decreases nums@.len() / 2 - k,
    {
        r.push(TilePos::new(nums[2 * k], nums[2 * k + 1]));
        k = k + 1;
        proof {
            assert(r@ =~= tiles_of(nums@).drop_first().take(k - 1));
        }
    }
    proof {
        assert(tiles_of(nums@).drop_first().take(k - 1) =~= tiles_of(nums@).drop_first());
    }
    r
}

/// A level text being read (see `Scan`).
struct Reader {
    walls: Vec<TilePos>,
    start: Option<TilePos>,
    buttons: Vec<ButtonTile>,
    doors: Vec<DoorSpot>,
    teleporters: Vec<TeleporterTile>,
    bulbs: Vec<TilePos>,
    machine: Option<TilePos>,
    error: Option<usize>,
    line_no: usize,
    first: Option<Vec<u8>>,
    nums: Vec<i32>,
    bad: bool,
    word: Vec<u8>,
    comment: bool,
}

pub open spec fn button_views(bs: Seq<ButtonTile>) -> Seq<(TilePos, Seq<TilePos>)> {
    bs.map_values(|b: ButtonTile| (b.position, b.connections@))
}

impl Reader {
    spec fn draft(&self) -> DraftView {
        DraftView {
            walls: self.walls@,
            start: self.start,
            buttons: button_views(self.buttons@),
            doors: self.doors@,
            teleporters: self.teleporters@,
            bulbs: self.bulbs@,
            machine: self.machine,
        }
    }

    spec fn scan(&self) -> Scan {
        Scan {
            draft: self.draft(),
            error: match self.error {
                Some(n) => Some(n as nat),
                None => None,
            },
            line_no: self.line_no as nat,
            first: match self.first {
                Some(w) => Some(w@),
                None => None,
            },
            nums: self.nums@,
            bad: self.bad,
            word: self.word@,
            comment: self.comment,
        }
    }

    fn end_word(&mut self)
        ensures
            final(self).scan() == end_word(old(self).scan()),
    {
        if self.word.len() == 0 {
            return;
        }
        let mut w: Vec<u8> = Vec::new();
        std::mem::swap(&mut w, &mut self.word);
        if self.first.is_none() {
            self.first = Some(w);
        } else {
            match read_number(&w) {
                Some(v) => {
                    self.nums.push(v);
                },
                None => {
                    self.bad = true;
                },
            }
        }
    }

    /// Adds the current line's item; false when its numbers do not fit.
    fn add_item(&mut self, kw: Kw) -> (ok: bool)
        ensures
            match add_item(old(self).draft(), kw, old(self).nums@) {
                Some(d) => ok && final(self).draft() == d,
                None => !ok && final(self).draft() == old(self).draft(),
            },
            final(self).error == old(self).error,
            final(self).line_no == old(self).line_no,
            final(self).first == old(self).first,
            final(self).nums == old(self).nums,
            final(self).bad == old(self).bad,
            final(self).word == old(self).word,
            final(self).comment == old(self).comment,
    {
        let n = self.nums.len();
        let ghost ts = tiles_of(self.nums@);
        if n < 2 {
            return false;
        }
        let t0 = TilePos::new(self.nums[0], self.nums[1]);
        proof {
            assert(ts[0] == t0);
        }
        match kw {
            Kw::Wall => {
                if n != 2 {
                    return false;
                }
                self.walls.push(t0);
            },
            Kw::Start => {
                if n != 2 {
                    return false;
                }
                self.start = Some(t0);
            },
            Kw::Button => {
                if n % 2 != 0 {
                    return false;
                }
                let connections = tiles_after_first(&self.nums);
                let ghost before = self.buttons@;
                self.buttons.push(ButtonTile { position: t0, connections });
                proof {
                    assert(button_views(self.buttons@) =~= button_views(before).push((t0, ts.drop_first())));
                }
            },
            Kw::HDoor => {
                if n != 2 {
                    return false;
                }
                self.doors.push(DoorSpot { position: t0, kind: DoorTile::Horizontal });
            },
            Kw::VDoor => {
                if n != 2 {
                    return false;
                }
                self.doors.push(DoorSpot { position: t0, kind: DoorTile::Vertical });
            },
            Kw::Teleporter => {
                if n != 2 && n != 4 {
                    return false;
                }
                let connection = if n == 4 {
                    proof {
                        assert(ts[1] == TilePos { x: self.nums@[2], y: self.nums@[3] });
                    }
                    Some(TilePos::new(self.nums[2], self.nums[3]))
                } else {
                    None
                };
                self.teleporters.push(TeleporterTile { position: t0, connection });
            },
            Kw::Bulb => {
                if n != 2 {
                    return false;
                }
                self.bulbs.push(t0);
            },
            Kw::Machine => {
                if n != 2 {
                    return false;
                }
                self.machine = Some(t0);
            },
        }
        true
    }

    fn end_line(&mut self)
        requires
            old(self).line_no < usize::MAX,
        ensures
            final(self).scan() == end_line(old(self).scan()),
    {
        self.end_word();
        let added = match &self.first {
            None => true,
            Some(w) => {
                if self.bad {
                    false
                } else {
                    match read_keyword(w) {
                        Some(kw) => {
                            if self.error.is_none() {
                                self.add_item(kw)
                            } else {
                                add_fits(kw, &self.nums)
                            }
                        },
                        None => false,
                    }
                }
            },
        };
        if self.error.is_none() && !added {
            self.error = Some(self.line_no);
        }
        self.line_no = self.line_no + 1;
        self.first = None;
        self.nums = Vec::new();
        self.bad = false;
        self.word = Vec::new();
        self.comment = false;
    }

    fn scan_byte(&mut self, c: u8)
        requires
            old(self).line_no < usize::MAX,
        ensures
            final(self).scan() == scan_byte(old(self).scan(), c),
    {
        if c == 10 {
            self.end_line();
        } else if self.comment {
        } else if c == 35 {
            self.end_word();
            self.comment = true;
        } else if c == 32 || c == 9 || c == 13 {
            self.end_word();
        } else {
            self.word.push(c);
        }
    }
}

/// Whether an item's numbers fit it.
fn add_fits(kw: Kw, nums: &Vec<i32>) -> (r: bool)
    ensures
        r == (forall|d: DraftView| #[trigger] add_item(d, kw, nums@) is Some),
{
    let n = nums.len();
    let r = match kw {
        Kw::Button => n >= 2 && n % 2 == 0,
        Kw::Teleporter => n == 2 || n == 4,
        _ => n == 2,
    };
    proof {
        if !r {
            assert(add_item(empty_draft(), kw, nums@) is None);
        }
    }
    r
}

/// Reads a level text (see `read_level`).
pub fn parse_level(bytes: &Vec<u8>) -> (r: Result<Level<TilePos>, LevelError>)
    requires
        bytes@.len() < usize::MAX - 1,
    ensures
        match read_level(bytes@) {
            Ok(d) => r is Ok && level_is(r->Ok_0, d),
            Err(e) => r == Err::<Level<TilePos>, LevelError>(e),
        },
{
    let mut rd = Reader {
        walls: Vec::new(),
        start: None,
        buttons: Vec::new(),
        doors: Vec::new(),
        teleporters: Vec::new(),
        bulbs: Vec::new(),
        machine: None,
        error: None,
        line_no: 1,
        first: None,
        nums: Vec::new(),
        bad: false,
        word: Vec::new(),
        comment: false,
    };
    proof {
        assert(button_views(rd.buttons@) =~= Seq::<(TilePos, Seq<TilePos>)>::empty());
        assert(rd.walls@ =~= Seq::<TilePos>::empty());
        assert(rd.nums@ =~= Seq::<i32>::empty());
        assert(rd.word@ =~= Seq::<u8>::empty());
        assert(rd.scan() =~= start_scan());
    }
    let mut i: usize = 0;
    while i < bytes.len()
        invariant
            i <= bytes@.len(),
            bytes@.len() < usize::MAX - 1,
            rd.line_no <= i + 1,
            rd.scan() == scan_bytes(bytes@.take(i as int)),
        decreases bytes@.len() - i,
    {
        proof {
            assert(bytes@.take(i + 1).drop_last() =~= bytes@.take(i as int));
        }
        rd.scan_byte(bytes[i]);
        i = i + 1;
    }
    proof {
        assert(bytes@.take(i as int) =~= bytes@);
        lemma_scan(bytes@);
        lemma_end_line(rd.scan(), bytes@);
    }
    rd.end_line();
    match rd.error {
        Some(n) => Err(LevelError::BadLine(n)),
        None => {
            match (rd.start, rd.machine) {
                (None, _) => Err(LevelError::NoStart),
                (Some(_), None) => Err(LevelError::NoMachine),
                (Some(start), Some(machine)) => {
                    let l = Level {
                        walls: rd.walls,
                        player_start: start,
                        buttons: rd.buttons,
                        doors: rd.doors,
                        teleporters: rd.teleporters,
                        bulbs: rd.bulbs,
                        the_machine: machine,
                    };
                    Ok(l)
                },
            }
        },
    }
}

} // verus!
