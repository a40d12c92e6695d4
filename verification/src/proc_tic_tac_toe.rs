//! Tic-tac-toe environment: the field and the moves of the two players.

use vstd::prelude::*;

verus! {

/// state of a game
#[derive(Debug)]
pub struct Gamestate {
    pub field: Vec<char>,
    /// true: is player next?    false: oponents move
    pub player: bool,
}

/// the text without line breaks (`\n`, `\r`) at its end
pub open spec fn without_newlines(s: Seq<char>) -> Seq<char>
    decreases s.len(),
{
    if s.len() > 0 && (s.last() == '\n' || s.last() == '\r') {
        without_newlines(s.drop_last())
    } else {
        s
    }
}

/// removes the line breaks at the end of the text
pub fn trimNewline(s: &mut String)
    ensures
        final(s)@ == without_newlines(old(s)@),
{
    let n = s.as_str().unicode_len();
    let mut k = n;
    assert(s@.subrange(0, n as int) =~= s@);
    while k > 0 && (s.as_str().get_char(k - 1) == '\n' || s.as_str().get_char(k - 1) == '\r')
        invariant
            k <= n,
            n == s@.len(),
            s@ == old(s)@,
            without_newlines(s@.subrange(0, k as int)) == without_newlines(old(s)@),
        decreases k,
    {
        assert(s@.subrange(0, k as int).drop_last() =~= s@.subrange(0, k - 1));
        k -= 1;
    }
    let t = String::from_str(s.as_str().substring_char(0, k));
    *s = t;
}

/// the field as text, with `S` for each empty cell
pub open spec fn field_text(field: Seq<char>) -> Seq<char> {
    field.map_values(|c: char| if c == ' ' { 'S' } else { c })
}

/// Calls `String::from_iter` on the characters: the text holds them in order.
#[verifier::external_body]
fn string_from_chars(v: &Vec<char>) -> (res: String)
    ensures
        res@ == v@,
{
    v.iter().collect::<String>()
}

/// the field as text, with `S` for each empty cell
pub fn retFieldAsString(field: &Vec<char>) -> (res: String)
    ensures
        res@ == field_text(field@),
{
    let mut res: Vec<char> = Vec::new();
    let mut i: usize = 0;
    while i < field.len()
        invariant
            i <= field.len(),
            res@ == field_text(field@).take(i as int),
        decreases field.len() - i,
    {
        let c = field[i];
        res.push(if c == ' ' { 'S' } else { c });
        i += 1;
        assert(res@ =~= field_text(field@).take(i as int));
    }
    assert(field_text(field@).take(field.len() as int) =~= field_text(field@));
    string_from_chars(&res)
}

/// sign of the player to move: `a` for the player, `b` for the opponent
pub open spec fn player_sign(player: bool) -> char {
    if player { 'a' } else { 'b' }
}

/// try move with current player: the move is made where the cell is empty
pub fn tryMove(gamestate: &mut Gamestate, idx: i64) -> (ok: bool)
    requires
        0 <= idx < old(gamestate).field.len(),
    ensures
        ok == (old(gamestate).field@[idx as int] == ' '),
        final(gamestate).player == old(gamestate).player,
        final(gamestate).field@ == if ok {
            old(gamestate).field@.update(idx as int, player_sign(old(gamestate).player))
        } else {
            old(gamestate).field@
        },
{
    let sign = if gamestate.player { 'a' } else { 'b' }; // compute sign of player

    if gamestate.field[idx as usize] != ' ' {
        return false;
    }
    gamestate.field.set(idx as usize, sign);

    true
}

/// the three cells at `i`, `j` and `k` hold the same sign, and not an empty cell
pub open spec fn line_of(f: Seq<char>, i: int, j: int, k: int) -> bool {
    f[i] != ' ' && f[i] == f[j] && f[j] == f[k]
}

/// the first row of three equal signs, if any
pub open spec fn row_winner(f: Seq<char>) -> Option<char> {
    if line_of(f, 0, 1, 2) {
        Some(f[0])
    } else if line_of(f, 3, 4, 5) {
        Some(f[3])
    } else if line_of(f, 6, 7, 8) {
        Some(f[6])
    } else {
        None
    }
}

/// the first column of three equal signs, if any
pub open spec fn column_winner(f: Seq<char>) -> Option<char> {
    if line_of(f, 0, 3, 6) {
        Some(f[0])
    } else if line_of(f, 1, 4, 7) {
        Some(f[1])
    } else if line_of(f, 2, 5, 8) {
        Some(f[2])
    } else {
        None
    }
}

/// the winner as the game decides it: the checks of the rows, the columns,
/// the diagonal from the top left and the one from the top right follow
/// each other, and a later check that finds a line overrides an earlier one
pub open spec fn spec_winner(f: Seq<char>) -> Option<char> {
    if line_of(f, 2, 4, 6) {
        Some(f[2])
    } else if line_of(f, 0, 4, 8) {
        Some(f[0])
    } else if column_winner(f) is Some {
        column_winner(f)
    } else {
        row_winner(f)
    }
}

/// check if someone won: the sign of a full row, column or diagonal
pub fn checkWinner(field: &Vec<char>) -> (res: Option<char>)
    requires
        field.len() >= 9,
    ensures
        res == spec_winner(field@),
{
    let mut winner: Option<char> = None;

    // check for equal row
    let mut iRow: usize = 0;
    while iRow < 3
        invariant_except_break
            iRow <= 3,
            winner is None,
            iRow >= 1 ==> !line_of(field@, 0, 1, 2),
            iRow >= 2 ==> !line_of(field@, 3, 4, 5),
            iRow >= 3 ==> !line_of(field@, 6, 7, 8),
        invariant
            field.len() >= 9,
        ensures
            winner == row_winner(field@),
        decreases 3 - iRow,
    {
        if field[iRow * 3 + 0] != ' ' && field[iRow * 3 + 0] == field[iRow * 3 + 1] && field[iRow * 3 + 1] == field[iRow * 3 + 2] {
            winner = Some(field[iRow * 3 + 0]);
            break;
        }
        iRow += 1;
    }

    // check for equal column
    let ghost rows = winner;
    let mut iColumn: usize = 0;
    while iColumn < 3
        invariant_except_break
            iColumn <= 3,
            winner == rows,
            iColumn >= 1 ==> !line_of(field@, 0, 3, 6),
            iColumn >= 2 ==> !line_of(field@, 1, 4, 7),
            iColumn >= 3 ==> !line_of(field@, 2, 5, 8),
        invariant
            field.len() >= 9,
            rows == row_winner(field@),
        ensures
            winner == if column_winner(field@) is Some { column_winner(field@) } else { row_winner(field@) },
        decreases 3 - iColumn,
    {
        if field[iColumn + 0] != ' ' && field[iColumn + 0] == field[iColumn + 3] && field[iColumn + 3] == field[iColumn + 6] {
            winner = Some(field[iColumn + 0]);
            break;
        }
        iColumn += 1;
    }

    // check for equal crosses
    if field[0] != ' ' && field[0] == field[3 + 1] && field[3 + 1] == field[6 + 2] {
        winner = Some(field[0]);
    }
    if field[2] != ' ' && field[2] == field[3 + 1] && field[3 + 1] == field[3 * 2 + 0] {
        winner = Some(field[2]);
    }
    winner
}

/// no cell is free: the field as text holds no `S`
pub open spec fn spec_is_draw(f: Seq<char>) -> bool {
    !field_text(f).contains('S')
}

/// did no one win, because no cell is left?
pub fn isDraw(field: &Vec<char>) -> (res: bool)
    ensures
        res == spec_is_draw(field@),
{
    let text = retFieldAsString(field);
    let n = text.as_str().unicode_len();
    let mut i: usize = 0;
    while i < n
        invariant
            n == text@.len(),
            text@ == field_text(field@),
            i <= n,
            forall|j: int| 0 <= j < i ==> text@[j] != 'S',
        decreases n - i,
    {
        if text.as_str().get_char(i) == 'S' {
            assert(text@[i as int] == 'S');
            return false;
        }
        i += 1;
    }
    true
}

/// the rows, columns and diagonals of the field
pub open spec fn lines() -> Seq<(int, int, int)> {
    seq![(0, 1, 2), (3, 4, 5), (6, 7, 8), (0, 3, 6), (1, 4, 7), (2, 5, 8), (0, 4, 8), (2, 4, 6)]
}

/// Someone wins exactly where a row, column or diagonal holds one sign, and
/// the winner is the sign of such a line.
pub proof fn law_winner_has_a_line(f: Seq<char>)
    requires
        f.len() >= 9,
    ensures
        spec_winner(f) is Some <==> exists|k: int| 0 <= k < 8 && #[trigger] line_of(f, lines()[k].0, lines()[k].1, lines()[k].2),
        spec_winner(f) matches Some(c) ==> c != ' ' && exists|k: int| 0 <= k < 8 && #[trigger] line_of(f, lines()[k].0, lines()[k].1, lines()[k].2) && f[lines()[k].0] == c,
{
    let l = lines();
    assert(l[0] == (0int, 1int, 2int));
    assert(l[1] == (3int, 4int, 5int));
    assert(l[2] == (6int, 7int, 8int));
    assert(l[3] == (0int, 3int, 6int));
    assert(l[4] == (1int, 4int, 7int));
    assert(l[5] == (2int, 5int, 8int));
    assert(l[6] == (0int, 4int, 8int));
    assert(l[7] == (2int, 4int, 6int));
    if exists|k: int| 0 <= k < 8 && #[trigger] line_of(f, l[k].0, l[k].1, l[k].2) {
        let k = choose|k: int| 0 <= k < 8 && #[trigger] line_of(f, l[k].0, l[k].1, l[k].2);
        assert(0 <= k < 8);
    }
    if line_of(f, 0, 1, 2) { assert(line_of(f, l[0].0, l[0].1, l[0].2)); }
    if line_of(f, 3, 4, 5) { assert(line_of(f, l[1].0, l[1].1, l[1].2)); }
    if line_of(f, 6, 7, 8) { assert(line_of(f, l[2].0, l[2].1, l[2].2)); }
    if line_of(f, 0, 3, 6) { assert(line_of(f, l[3].0, l[3].1, l[3].2)); }
    if line_of(f, 1, 4, 7) { assert(line_of(f, l[4].0, l[4].1, l[4].2)); }
    if line_of(f, 2, 5, 8) { assert(line_of(f, l[5].0, l[5].1, l[5].2)); }
    if line_of(f, 0, 4, 8) { assert(line_of(f, l[6].0, l[6].1, l[6].2)); }
    if line_of(f, 2, 4, 6) { assert(line_of(f, l[7].0, l[7].1, l[7].2)); }
}

/// what a move leads to
#[derive(PartialEq, Eq, Structural, Copy, Clone, Debug)]
pub enum MoveOutcome {
    /// the cell is taken: the move must be tried again
    Invalid,
    /// the game is won by the given sign
    Won(char),
    /// no cell is left
    Draw,
    /// the other player moves next
    Next,
}

/// a game step: the player to move takes the cell `idx` where it is free;
/// then the game is won, drawn, or goes on with the other player
pub fn playMove(gamestate: &mut Gamestate, idx: i64) -> (res: MoveOutcome)
    requires
        0 <= idx < old(gamestate).field.len(),
        old(gamestate).field.len() >= 9,
    ensures
        old(gamestate).field@[idx as int] != ' ' ==> res == MoveOutcome::Invalid && final(gamestate).field@ == old(gamestate).field@ && final(gamestate).player == old(gamestate).player,
        old(gamestate).field@[idx as int] == ' ' ==> {
            let f = old(gamestate).field@.update(idx as int, player_sign(old(gamestate).player));
            &&& final(gamestate).field@ == f
            &&& res == match spec_winner(f) {
                Some(c) => MoveOutcome::Won(c),
                None => if spec_is_draw(f) { MoveOutcome::Draw } else { MoveOutcome::Next },
            }
            &&& final(gamestate).player == (if res == MoveOutcome::Next { !old(gamestate).player } else { old(gamestate).player })
        },
{
    if !tryMove(gamestate, idx) {
        return MoveOutcome::Invalid;
    }
    match checkWinner(&gamestate.field) {
        Some(c) => MoveOutcome::Won(c),
        None => {
            if isDraw(&gamestate.field) {
                MoveOutcome::Draw
            } else {
                gamestate.player = !gamestate.player; // switch to opposite player
                MoveOutcome::Next
            }
        },
    }
}

} // verus!
