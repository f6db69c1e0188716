use vstd::prelude::*;

use crate::game::Phase;
use crate::game::Screen;
use crate::game::SceneState;
use crate::game::SceneView;
use crate::game::BALL_CAUGHT_X;
use crate::game::BALL_START_X;
use crate::game::lemma_throw_reaches_opening;
use crate::game::spec_advance_n;

verus! {

/// Whitespace as the command reader strips it.
pub open spec fn spec_is_space(b: u8) -> bool {
    b == 32 || b == 9 || b == 13 || b == 10
}

/// An ASCII byte folded to lower case.
pub open spec fn spec_lower_byte(b: u8) -> u8 {
    if 65 <= b <= 90 {
        (b + 32) as u8
    } else {
        b
    }
}

/// A byte string with its leading whitespace removed.
pub open spec fn spec_trim_front(s: Seq<u8>) -> Seq<u8>
    decreases s.len(),
{
    if s.len() > 0 && spec_is_space(s[0]) {
        spec_trim_front(s.subrange(1, s.len() as int))
    } else {
        s
    }
}

/// A byte string with its trailing whitespace removed.
pub open spec fn spec_trim_back(s: Seq<u8>) -> Seq<u8>
    decreases s.len(),
{
    if s.len() > 0 && spec_is_space(s.last()) {
        spec_trim_back(s.drop_last())
    } else {
        s
    }
}

/// A typed line as the state machine sees it: trimmed and case-folded.
pub open spec fn spec_canon(s: Seq<u8>) -> Seq<u8> {
    spec_trim_back(spec_trim_front(s)).map_values(|b: u8| spec_lower_byte(b))
}

/// Skipping any number of leading spaces does not change the trim.
proof fn lemma_trim_front_skip(s: Seq<u8>, i: int)
    requires
        0 <= i <= s.len(),
        forall|k: int| 0 <= k < i ==> spec_is_space(#[trigger] s[k]),
    ensures
        spec_trim_front(s) == spec_trim_front(s.subrange(i, s.len() as int)),
    decreases i,
{
    if i == 0 {
        assert(s.subrange(0, s.len() as int) =~= s);
    } else {
        lemma_trim_front_skip(s, i - 1);
        let t = s.subrange(i - 1, s.len() as int);
        assert(t[0] == s[i - 1]);
        assert(t.subrange(1, t.len() as int) =~= s.subrange(i, s.len() as int));
    }
}

/// Cutting any number of trailing spaces does not change the trim.
proof fn lemma_trim_back_skip(s: Seq<u8>, m: int)
    requires
        0 <= m <= s.len(),
        forall|k: int| m <= k < s.len() ==> spec_is_space(#[trigger] s[k]),
    ensures
        spec_trim_back(s) == spec_trim_back(s.subrange(0, m)),
    decreases s.len() - m,
{
    if m == s.len() {
        assert(s.subrange(0, m) =~= s);
    } else {
        assert(spec_is_space(s.last()));
        assert(s.drop_last() =~= s.subrange(0, s.len() - 1));
        lemma_trim_back_skip(s.subrange(0, s.len() - 1), m);
        assert(s.subrange(0, s.len() - 1).subrange(0, m) =~= s.subrange(0, m));
    }
}

/// Trims and case-folds one typed line.
pub fn canon_command(line: &Vec<u8>) -> (out: Vec<u8>)
    ensures
        out@ == spec_canon(line@),
{
    let n: usize = line.len();
    let mut start: usize = 0;
    while start < n && (line[start] == 32 || line[start] == 9 || line[start] == 13
        || line[start] == 10)
        invariant
            0 <= start <= n,
            n == line@.len(),
            forall|k: int| 0 <= k < start ==> spec_is_space(#[trigger] line@[k]),
        decreases n - start,
    {
        start = start + 1;
    }
    proof {
        lemma_trim_front_skip(line@, start as int);
    }
    let ghost t = line@.subrange(start as int, n as int);
    proof {
        if start < n {
            assert(t[0] == line@[start as int]);
        }
        assert(spec_trim_front(line@) == t);
    }

    let mut end: usize = n;
    while end > start && (line[end - 1] == 32 || line[end - 1] == 9 || line[end - 1] == 13
        || line[end - 1] == 10)
        invariant
            start <= end <= n,
            n == line@.len(),
            t == line@.subrange(start as int, n as int),
            forall|k: int| end <= k < n ==> spec_is_space(#[trigger] line@[k]),
        decreases end,
    {
        end = end - 1;
    }
    let ghost m = end - start;
    proof {
        assert forall|k: int| m <= k < t.len() implies spec_is_space(#[trigger] t[k]) by {
            assert(t[k] == line@[start + k]);
        }
        lemma_trim_back_skip(t, m);
        if end > start {
            assert(t.subrange(0, m)[m - 1] == line@[end - 1]);
            assert(!spec_is_space(t.subrange(0, m).last()));
        }
        assert(spec_trim_back(t) == t.subrange(0, m));
    }
    let ghost trimmed = t.subrange(0, m);

    let mut out: Vec<u8> = Vec::new();
    let mut i: usize = start;
    while i < end
        invariant
            start <= i <= end <= n,
            n == line@.len(),
            trimmed == line@.subrange(start as int, n as int).subrange(0, end - start),
            out@.len() == i - start,
            forall|k: int|
                0 <= k < i - start ==> out@[k] == spec_lower_byte(#[trigger] trimmed[k]),
        decreases end - i,
    {
        let b = line[i];
        let lb: u8 = if 65 <= b && b <= 90 {
            b + 32
        } else {
            b
        };
        proof {
            assert(trimmed[i - start] == line@[i as int]);
        }
        out.push(lb);
        i = i + 1;
    }
    proof {
        assert(out@ =~= trimmed.map_values(|b: u8| spec_lower_byte(b)));
    }
    out
}

/// A byte allowed in a trainer name: lower-case letter, digit, underscore.
pub open spec fn spec_name_byte(b: u8) -> bool {
    (97 <= b <= 122) || (48 <= b <= 57) || b == 95
}

/// A canonical line is a valid trainer name: nonempty, at most 20 bytes,
/// every byte from the allowed set.
pub open spec fn spec_name_ok(s: Seq<u8>) -> bool {
    &&& 1 <= s.len() <= 20
    &&& forall|k: int| 0 <= k < s.len() ==> spec_name_byte(#[trigger] s[k])
}

/// What a typed trainer name sanitizes to, if it is accepted.
pub open spec fn spec_sanitize(line: Seq<u8>) -> Option<Seq<u8>> {
    if spec_name_ok(spec_canon(line)) {
        Some(spec_canon(line))
    } else {
        None
    }
}

/// Sanitizes a typed trainer name: the line is trimmed and lower-cased,
/// then accepted only if it is 1-20 bytes of letters, digits and
/// underscores. A line with any other byte, a space inside included, is
/// rejected.
pub fn sanitize_name(line: &Vec<u8>) -> (r: Option<Vec<u8>>)
    ensures
        r.deep_view() == spec_sanitize(line@),
{
    let c = canon_command(line);
    if c.len() < 1 || c.len() > 20 {
        return None;
    }
    let mut i: usize = 0;
    while i < c.len()
        invariant
            i <= c@.len(),
            c@ == spec_canon(line@),
            1 <= c@.len() <= 20,
            forall|k: int| 0 <= k < i ==> spec_name_byte(#[trigger] c@[k]),
        decreases c@.len() - i,
    {
        let b = c[i];
        if !((97 <= b && b <= 122) || (48 <= b && b <= 57) || b == 95) {
            proof {
                assert(!spec_name_byte(c@[i as int]));
            }
            return None;
        }
        i = i + 1;
    }
    proof {
        assert(c.deep_view() =~= c@);
    }
    Some(c)
}

/// Value of a run of decimal digits.
pub open spec fn spec_digits_val(s: Seq<u8>) -> int
    decreases s.len(),
{
    if s.len() == 0 {
        0
    } else {
        10 * spec_digits_val(s.drop_last()) + (s.last() - 48)
    }
}

/// Every byte is a decimal digit.
pub open spec fn spec_all_digits(s: Seq<u8>) -> bool {
    forall|k: int| 0 <= k < s.len() ==> 48 <= #[trigger] s[k] <= 57
}

/// The index a canonical line selects on the grid screen: one to three
/// digits whose value lies in 1-151.
pub open spec fn spec_parse_index(s: Seq<u8>) -> Option<u8> {
    if 1 <= s.len() <= 3 && spec_all_digits(s) && 1 <= spec_digits_val(s) <= 151 {
        Some(spec_digits_val(s) as u8)
    } else {
        None
    }
}

/// Parses a one-to-three digit index in 1-151.
pub fn parse_dex_index(c: &Vec<u8>) -> (r: Option<u8>)
    ensures
        r == spec_parse_index(c@),
{
    if c.len() < 1 || c.len() > 3 {
        return None;
    }
    let mut v: u32 = 0;
    let mut i: usize = 0;
    while i < c.len()
        invariant
            i <= c@.len(),
            c@.len() <= 3,
            spec_all_digits(c@.subrange(0, i as int)),
            v == spec_digits_val(c@.subrange(0, i as int)),
            i == 0 ==> v == 0,
            i == 1 ==> v <= 9,
            i == 2 ==> v <= 99,
            i == 3 ==> v <= 999,
        decreases c@.len() - i,
    {
        let b = c[i];
        if b < 48 || b > 57 {
            proof {
                if spec_all_digits(c@) {
                    assert(48 <= c@[i as int] <= 57);
                }
            }
            return None;
        }
        proof {
            let pre = c@.subrange(0, i as int);
            let now = c@.subrange(0, i + 1);
            assert(now.drop_last() =~= pre);
            assert(now.last() == c@[i as int]);
        }
        v = v * 10 + (b - 48) as u32;
        i = i + 1;
    }
    proof {
        assert(c@.subrange(0, c@.len() as int) =~= c@);
    }
    if 1 <= v && v <= 151 {
        Some(v as u8)
    } else {
        None
    }
}

/// The canonical quit tokens.
pub open spec fn spec_is_quit_token(c: Seq<u8>) -> bool {
    c == seq![113u8] || c == seq![113u8, 117, 105, 116] || c == seq![101u8, 120, 105, 116]
}

/// A typed line requests disconnect: a raw control byte 3 anywhere, or one
/// of the quit tokens.
pub open spec fn spec_is_quit(line: Seq<u8>) -> bool {
    line.contains(3u8) || spec_is_quit_token(spec_canon(line))
}

/// The scene state after one typed line is interpreted.
///
/// The canonical line is always echoed into the prompt. A quit request
/// changes nothing else. Otherwise the current screen interprets the line:
/// name entry accepts a sanitized trainer name; the game screen starts a
/// throw on "catch" from Idle and opens the index on "pokedex"/"dex"; the
/// grid screen opens a numbered entry or goes back; a detail entry goes
/// back to the grid. Unrecognized lines change nothing but the echo.
pub open spec fn spec_handle(v: SceneView, line: Seq<u8>) -> SceneView {
    let c = spec_canon(line);
    let b = SceneView { last_cmd: c, ..v };
    if spec_is_quit(line) {
        b
    } else {
        match v.screen {
            Screen::Name => {
                if spec_name_ok(c) {
                    SceneView { trainer: Some(c), screen: Screen::Game, ..b }
                } else {
                    b
                }
            },
            Screen::Game => {
                if c == seq![99u8, 97, 116, 99, 104] && v.phase is Idle {
                    SceneView { phase: Phase::Throwing, frame: 0, ..b }
                } else if c == seq![112u8, 111, 107, 101, 100, 101, 120] || c == seq![
                    100u8,
                    101,
                    120,
                ] {
                    SceneView { screen: Screen::DexGrid, ..b }
                } else {
                    b
                }
            },
            Screen::DexGrid => {
                if c == seq![98u8, 97, 99, 107] {
                    SceneView { screen: Screen::Game, ..b }
                } else if spec_parse_index(c) is Some {
                    SceneView { screen: Screen::DexDetail(spec_parse_index(c).unwrap()), ..b }
                } else {
                    b
                }
            },
            Screen::DexDetail(_) => {
                if c == seq![98u8, 97, 99, 107] {
                    SceneView { screen: Screen::DexGrid, ..b }
                } else {
                    b
                }
            },
        }
    }
}

/// Whether a canonical line equals "catch".
fn is_catch(c: &Vec<u8>) -> (r: bool)
    ensures
        r == (c@ == seq![99u8, 97, 116, 99, 104]),
{
    let r = c.len() == 5 && c[0] == 99 && c[1] == 97 && c[2] == 116 && c[3] == 99 && c[4] == 104;
    proof {
        if r {
            assert(c@ =~= seq![99u8, 97, 116, 99, 104]);
        }
    }
    r
}

/// Whether a canonical line equals "pokedex".
fn is_pokedex(c: &Vec<u8>) -> (r: bool)
    ensures
        r == (c@ == seq![112u8, 111, 107, 101, 100, 101, 120]),
{
    let r = c.len() == 7 && c[0] == 112 && c[1] == 111 && c[2] == 107 && c[3] == 101 && c[4]
        == 100 && c[5] == 101 && c[6] == 120;
    proof {
        if r {
            assert(c@ =~= seq![112u8, 111, 107, 101, 100, 101, 120]);
        }
    }
    r
}

/// Whether a canonical line equals "dex".
fn is_dex(c: &Vec<u8>) -> (r: bool)
    ensures
        r == (c@ == seq![100u8, 101, 120]),
{
    let r = c.len() == 3 && c[0] == 100 && c[1] == 101 && c[2] == 120;
    proof {
        if r {
            assert(c@ =~= seq![100u8, 101, 120]);
        }
    }
    r
}

/// Whether a canonical line equals "back".
fn is_back(c: &Vec<u8>) -> (r: bool)
    ensures
        r == (c@ == seq![98u8, 97, 99, 107]),
{
    let r = c.len() == 4 && c[0] == 98 && c[1] == 97 && c[2] == 99 && c[3] == 107;
    proof {
        if r {
            assert(c@ =~= seq![98u8, 97, 99, 107]);
        }
    }
    r
}

/// Whether a canonical line is one of the quit tokens.
fn is_quit_token(c: &Vec<u8>) -> (r: bool)
    ensures
        r == spec_is_quit_token(c@),
{
    let q = c.len() == 1 && c[0] == 113;
    let quit = c.len() == 4 && c[0] == 113 && c[1] == 117 && c[2] == 105 && c[3] == 116;
    let exit = c.len() == 4 && c[0] == 101 && c[1] == 120 && c[2] == 105 && c[3] == 116;
    proof {
        if q {
            assert(c@ =~= seq![113u8]);
        }
        if quit {
            assert(c@ =~= seq![113u8, 117, 105, 116]);
        }
        if exit {
            assert(c@ =~= seq![101u8, 120, 105, 116]);
        }
    }
    q || quit || exit
}

/// Whether the raw line holds the control byte 3.
fn has_ctrl_c(line: &Vec<u8>) -> (r: bool)
    ensures
        r == line@.contains(3u8),
{
    let mut i: usize = 0;
    while i < line.len()
        invariant
            i <= line@.len(),
            forall|k: int| 0 <= k < i ==> line@[k] != 3u8,
        decreases line@.len() - i,
    {
        if line[i] == 3 {
            return true;
        }
        i = i + 1;
    }
    proof {
        if line@.contains(3u8) {
            let k = choose|k: int| 0 <= k < line@.len() && line@[k] == 3u8;
            assert(line@[k] != 3u8);
        }
    }
    false
}

/// End-to-end: typing "catch" on the game screen while the scene idles
/// with the ball at its start column begins a throw, and exactly 39 ticks
/// later the ball has crossed the hit column and the ball stands open at
/// the caught column.
pub proof fn lemma_catch_scenario(v: SceneView, line: Seq<u8>)
    requires
        v.screen is Game,
        v.phase is Idle,
        v.ball_x == BALL_START_X as int,
        spec_canon(line) == seq![99u8, 97, 116, 99, 104],
        !spec_is_quit(line),
    ensures
        spec_handle(v, line).phase is Throwing,
        forall|n: nat|
            n < 39 ==> (#[trigger] spec_advance_n(spec_handle(v, line), n)).phase is Throwing,
        spec_advance_n(spec_handle(v, line), 39).phase is Opening,
        spec_advance_n(spec_handle(v, line), 39).ball_x == BALL_CAUGHT_X as int,
{
    let u = spec_handle(v, line);
    assert(u.phase is Throwing && u.ball_x == BALL_START_X as int);
    lemma_throw_reaches_opening(u);
}

impl SceneState {
    /// Interprets one typed line and returns whether it requested
    /// disconnect.
    pub fn handle_command(&mut self, line: &Vec<u8>) -> (quit: bool)
        ensures
            final(self)@ == spec_handle(old(self)@, line@),
            quit == spec_is_quit(line@),
            old(self).wf() ==> final(self).wf(),
    {
        let c = canon_command(line);
        let quit = has_ctrl_c(line) || is_quit_token(&c);
        if quit {
            self.last_cmd = c;
            return true;
        }
        match self.screen {
            Screen::Name => {
                match sanitize_name(line) {
                    Some(name) => {
                        self.trainer = Some(name);
                        self.screen = Screen::Game;
                    },
                    None => {},
                }
            },
            Screen::Game => {
                if is_catch(&c) && matches!(self.phase, Phase::Idle) {
                    self.phase = Phase::Throwing;
                    self.frame = 0;
                } else if is_pokedex(&c) || is_dex(&c) {
                    self.screen = Screen::DexGrid;
                }
            },
            Screen::DexGrid => {
                if is_back(&c) {
                    self.screen = Screen::Game;
                } else {
                    match parse_dex_index(&c) {
                        Some(n) => {
                            self.screen = Screen::DexDetail(n);
                        },
                        None => {},
                    }
                }
            },
            Screen::DexDetail(_) => {
                if is_back(&c) {
                    self.screen = Screen::DexGrid;
                }
            },
        }
        self.last_cmd = c;
        false
    }
}

} // verus!
