//! The level loader: turns a rectangular textual grid into entities.
//!
//! Rows are separated by newlines; tokens inside a row are maximal runs of
//! non-blank characters; rows without any token are ignored.  Each token
//! stands for one cell, left to right, top to bottom: `.` floor, `W` wall on
//! floor, `P` player on floor, `B` box on floor, `S` scoring target on
//! floor, `N` void (no tile).  The grid must have exactly `height` rows of
//! exactly `width` tokens each, every token recognized; otherwise the load
//! fails with a diagnostic naming the offending row or token and the world
//! is left untouched.

use vstd::prelude::*;
use vstd::std_specs::iter::IteratorSpec;

use crate::components::{Entity, Position, floor_entity, wall_entity, player_entity, box_entity,
    box_spot_entity};
use crate::world::{World, create_floor, create_wall, create_player, create_box, create_box_spot};

verus! {

/// A blank character: separates tokens inside a row.
pub open spec fn is_sep(c: char) -> bool {
    c == ' ' || c == '\t' || c == '\r'
}

/// Splits the remaining text `t` into lines, `cur` being the line read so
/// far.
pub open spec fn lines_acc(t: Seq<char>, cur: Seq<char>) -> Seq<Seq<char>>
    decreases t.len(),
{
    if t.len() == 0 {
        seq![cur]
    } else if t[0] == '\n' {
        seq![cur] + lines_acc(t.drop_first(), Seq::<char>::empty())
    } else {
        lines_acc(t.drop_first(), cur.push(t[0]))
    }
}

/// The lines of `s`, split at newlines.
pub open spec fn split_lines(s: Seq<char>) -> Seq<Seq<char>> {
    lines_acc(s, Seq::<char>::empty())
}

/// Splits the remaining row text `t` into tokens, `cur` being the token
/// read so far.
pub open spec fn tokens_acc(t: Seq<char>, cur: Seq<char>) -> Seq<Seq<char>>
    decreases t.len(),
{
    if t.len() == 0 {
        if cur.len() == 0 {
            Seq::<Seq<char>>::empty()
        } else {
            seq![cur]
        }
    } else if is_sep(t[0]) {
        if cur.len() == 0 {
            tokens_acc(t.drop_first(), Seq::<char>::empty())
        } else {
            seq![cur] + tokens_acc(t.drop_first(), Seq::<char>::empty())
        }
    } else {
        tokens_acc(t.drop_first(), cur.push(t[0]))
    }
}

/// The tokens of one row: maximal runs of non-blank characters.
pub open spec fn row_tokens(r: Seq<char>) -> Seq<Seq<char>> {
    tokens_acc(r, Seq::<char>::empty())
}

/// The token rows of the given lines; lines without any token are ignored.
pub open spec fn rows_of_lines(lines: Seq<Seq<char>>) -> Seq<Seq<Seq<char>>>
    decreases lines.len(),
{
    if lines.len() == 0 {
        Seq::<Seq<Seq<char>>>::empty()
    } else {
        let toks = row_tokens(lines[0]);
        let rest = rows_of_lines(lines.drop_first());
        if toks.len() == 0 {
            rest
        } else {
            seq![toks] + rest
        }
    }
}

/// The token grid of a map text: rows of tokens.
pub open spec fn grid_rows(s: Seq<char>) -> Seq<Seq<Seq<char>>> {
    rows_of_lines(split_lines(s))
}

/// The token is one of the six recognized cell kinds.
pub open spec fn recognized(t: Seq<char>) -> bool {
    t.len() == 1 && (t[0] == '.' || t[0] == 'W' || t[0] == 'P' || t[0] == 'B' || t[0] == 'S'
        || t[0] == 'N')
}

/// The entities a recognized token at cell (x, y) creates: a floor tile
/// under every non-void cell, plus zero or one feature entity.
pub open spec fn token_entities(t: Seq<char>, x: int, y: int) -> Seq<Entity> {
    if t.len() == 1 && t[0] == '.' {
        seq![floor_entity(x as u8, y as u8)]
    } else if t.len() == 1 && t[0] == 'W' {
        seq![floor_entity(x as u8, y as u8), wall_entity(x as u8, y as u8)]
    } else if t.len() == 1 && t[0] == 'P' {
        seq![floor_entity(x as u8, y as u8), player_entity(x as u8, y as u8)]
    } else if t.len() == 1 && t[0] == 'B' {
        seq![floor_entity(x as u8, y as u8), box_entity(x as u8, y as u8)]
    } else if t.len() == 1 && t[0] == 'S' {
        seq![floor_entity(x as u8, y as u8), box_spot_entity(x as u8, y as u8)]
    } else {
        Seq::<Entity>::empty()
    }
}

/// The entities of the tokens of one row, starting at column `x` of row
/// `y`.
pub open spec fn row_entities(toks: Seq<Seq<char>>, x: int, y: int) -> Seq<Entity>
    decreases toks.len(),
{
    if toks.len() == 0 {
        Seq::<Entity>::empty()
    } else {
        token_entities(toks[0], x, y) + row_entities(toks.drop_first(), x + 1, y)
    }
}

/// The entities of the grid rows, starting at row `y`.
pub open spec fn grid_entities(rows: Seq<Seq<Seq<char>>>, y: int) -> Seq<Entity>
    decreases rows.len(),
{
    if rows.len() == 0 {
        Seq::<Entity>::empty()
    } else {
        row_entities(rows[0], 0, y) + grid_entities(rows.drop_first(), y + 1)
    }
}

/// Every entity a map text creates, in reading order.
pub open spec fn map_entities(s: Seq<char>) -> Seq<Entity> {
    grid_entities(grid_rows(s), 0)
}

/// The map text fits a `w` x `h` world: the right number of rows and
/// columns, every token recognized.
pub open spec fn load_ok(s: Seq<char>, w: int, h: int) -> bool {
    let g = grid_rows(s);
    &&& g.len() == h
    &&& forall|y: int| 0 <= y < g.len() ==> (#[trigger] g[y]).len() == w
    &&& forall|y: int, x: int|
        0 <= y < g.len() && 0 <= x < g[y].len() ==> recognized(#[trigger] g[y][x])
}

/// A structurally invalid level: fatal, the world is left untouched.
#[derive(Clone, Debug)]
pub enum LoadError {
    /// The grid has the wrong number of token rows.
    BadRowCount { expected: u8, found: usize },
    /// The first row (top to bottom) with the wrong number of tokens.
    BadRowWidth { y: usize, expected: u8, found: usize },
    /// The first token (reading order) that names no cell kind.
    UnrecognizedToken { x: usize, y: usize, token: Vec<char> },
}

/// The returned error names the first offence, in reading order.
pub open spec fn err_matches(e: LoadError, s: Seq<char>, w: int, h: int) -> bool {
    let g = grid_rows(s);
    match e {
        LoadError::BadRowCount { expected, found } => {
            &&& g.len() != h
            &&& expected == h
            &&& found == g.len()
        },
        LoadError::BadRowWidth { y, expected, found } => {
            &&& g.len() == h
            &&& 0 <= y < g.len()
            &&& g[y as int].len() != w
            &&& forall|j: int| 0 <= j < y ==> (#[trigger] g[j]).len() == w
            &&& expected == w
            &&& found == g[y as int].len()
        },
        LoadError::UnrecognizedToken { x, y, token } => {
            &&& g.len() == h
            &&& forall|j: int| 0 <= j < g.len() ==> (#[trigger] g[j]).len() == w
            &&& 0 <= y < g.len()
            &&& 0 <= x < g[y as int].len()
            &&& !recognized(g[y as int][x as int])
            &&& token@ == g[y as int][x as int]
            &&& forall|j: int, c: int|
                0 <= j < y && 0 <= c < g[j].len() ==> recognized(#[trigger] g[j][c])
            &&& forall|c: int| 0 <= c < x ==> recognized(#[trigger] g[y as int][c])
        },
    }
}

/// The characters of a text, in order.
fn str_chars(s: &str) -> (v: Vec<char>)
    ensures
        v@ == s@,
{
    broadcast use vstd::string::next_postcondition;
    broadcast use vstd::string::axiom_spec_iter;

    let mut v: Vec<char> = Vec::new();
    let mut it = s.chars();
    let mut done = false;
    while !done
        invariant
            v@ + it.remaining() == s@,
            done ==> it.remaining().len() == 0,
            it.decrease() is Some,
        decreases (if done {
            0nat
        } else {
            it.decrease()->0 + 1nat
        }),
    {
        let ghost old_v = v@;
        let ghost old_rem = it.remaining();
        match it.next() {
            Some(c) => {
                v.push(c);
                proof {
                    assert(old_v + old_rem =~= v@ + it.remaining());
                }
            },
            None => {
                done = true;
            },
        }
    }
    proof {
        assert(v@ =~= v@ + it.remaining());
    }
    v
}

/// The views of a sequence of character vectors.
pub open spec fn vec_views(ls: Seq<Vec<char>>) -> Seq<Seq<char>> {
    ls.map_values(|l: Vec<char>| l@)
}

/// The views of a sequence of token vectors.
pub open spec fn tok_views(ts: Seq<Vec<Vec<char>>>) -> Seq<Seq<Seq<char>>> {
    ts.map_values(|t: Vec<Vec<char>>| vec_views(t@))
}

/// Splits the characters into lines at newlines.
fn split_into_lines(chars: &Vec<char>) -> (lines: Vec<Vec<char>>)
    ensures
        vec_views(lines@) == split_lines(chars@),
{
    let ghost sv = chars@;
    let mut lines: Vec<Vec<char>> = Vec::new();
    let mut cur: Vec<char> = Vec::new();
    let mut i: usize = 0;
    proof {
        assert(sv.skip(0) =~= sv);
    }
    while i < chars.len()
        invariant
            sv == chars@,
            0 <= i <= sv.len(),
            split_lines(sv) == vec_views(lines@) + lines_acc(sv.skip(i as int), cur@),
        decreases sv.len() - i,
    {
        let c = chars[i];
        let ghost t = sv.skip(i as int);
        proof {
            assert(t[0] == sv[i as int]);
            assert(t.drop_first() =~= sv.skip(i + 1));
        }
        if c == '\n' {
            let ghost old_lines = lines@;
            let finished = cur;
            lines.push(finished);
            cur = Vec::new();
            proof {
                assert(vec_views(lines@) =~= vec_views(old_lines).push(finished@));
                assert(vec_views(old_lines) + (seq![finished@] + lines_acc(
                    sv.skip(i + 1),
                    Seq::<char>::empty(),
                )) =~= vec_views(lines@) + lines_acc(sv.skip(i + 1), Seq::<char>::empty()));
            }
        } else {
            cur.push(c);
        }
        i = i + 1;
    }
    proof {
        assert(sv.skip(sv.len() as int) =~= Seq::<char>::empty());
    }
    let ghost old_lines = lines@;
    let last = cur;
    lines.push(last);
    proof {
        assert(vec_views(lines@) =~= vec_views(old_lines).push(last@));
        assert(vec_views(old_lines) + seq![last@] =~= vec_views(lines@));
    }
    lines
}

/// Splits one line into its tokens.
fn tokenize_row(line: &Vec<char>) -> (toks: Vec<Vec<char>>)
    ensures
        vec_views(toks@) == row_tokens(line@),
{
    let ghost lv = line@;
    let mut toks: Vec<Vec<char>> = Vec::new();
    let mut cur: Vec<char> = Vec::new();
    let mut i: usize = 0;
    proof {
        assert(lv.skip(0) =~= lv);
    }
    while i < line.len()
        invariant
            lv == line@,
            0 <= i <= lv.len(),
            row_tokens(lv) == vec_views(toks@) + tokens_acc(lv.skip(i as int), cur@),
        decreases lv.len() - i,
    {
        let c = line[i];
        let ghost t = lv.skip(i as int);
        proof {
            assert(t[0] == lv[i as int]);
            assert(t.drop_first() =~= lv.skip(i + 1));
        }
        if c == ' ' || c == '\t' || c == '\r' {
            if cur.len() > 0 {
                let ghost old_toks = toks@;
                let finished = cur;
                toks.push(finished);
                cur = Vec::new();
                proof {
                    assert(vec_views(toks@) =~= vec_views(old_toks).push(finished@));
                    assert(vec_views(old_toks) + (seq![finished@] + tokens_acc(
                        lv.skip(i + 1),
                        Seq::<char>::empty(),
                    )) =~= vec_views(toks@) + tokens_acc(lv.skip(i + 1), Seq::<char>::empty()));
                }
            } else {
                proof {
                    assert(cur@ =~= Seq::<char>::empty());
                }
            }
        } else {
            cur.push(c);
        }
        i = i + 1;
    }
    proof {
        assert(lv.skip(lv.len() as int) =~= Seq::<char>::empty());
    }
    if cur.len() > 0 {
        let ghost old_toks = toks@;
        let last = cur;
        toks.push(last);
        proof {
            assert(vec_views(toks@) =~= vec_views(old_toks).push(last@));
            assert(vec_views(old_toks) + seq![last@] =~= vec_views(toks@));
        }
    } else {
        proof {
            assert(cur@ =~= Seq::<char>::empty());
            assert(vec_views(toks@) + Seq::<Seq<char>>::empty() =~= vec_views(toks@));
        }
    }
    toks
}

/// The token grid of a map text.
fn build_grid(map_string: &str) -> (grid: Vec<Vec<Vec<char>>>)
    ensures
        tok_views(grid@) == grid_rows(map_string@),
{
    let chars = str_chars(map_string);
    let lines = split_into_lines(&chars);
    let ghost ls = vec_views(lines@);
    let mut grid: Vec<Vec<Vec<char>>> = Vec::new();
    let mut i: usize = 0;
    proof {
        assert(ls.skip(0) =~= ls);
    }
    while i < lines.len()
        invariant
            ls == vec_views(lines@),
            0 <= i <= ls.len(),
            rows_of_lines(ls) == tok_views(grid@) + rows_of_lines(ls.skip(i as int)),
        decreases ls.len() - i,
    {
        let ghost t = ls.skip(i as int);
        proof {
            assert(t[0] == ls[i as int]);
            assert(t.drop_first() =~= ls.skip(i + 1));
        }
        let toks = tokenize_row(&lines[i]);
        if toks.len() > 0 {
            let ghost old_grid = grid@;
            let ghost tv = vec_views(toks@);
            grid.push(toks);
            proof {
                assert(tok_views(grid@) =~= tok_views(old_grid).push(tv));
                assert(tok_views(old_grid) + (seq![tv] + rows_of_lines(ls.skip(i + 1)))
                    =~= tok_views(grid@) + rows_of_lines(ls.skip(i + 1)));
            }
        }
        i = i + 1;
    }
    proof {
        assert(ls.skip(ls.len() as int) =~= Seq::<Seq<char>>::empty());
        assert(tok_views(grid@) + Seq::<Seq<Seq<char>>>::empty() =~= tok_views(grid@));
    }
    grid
}

/// A copy of a token, for a diagnostic.
fn copy_chars(t: &Vec<char>) -> (c: Vec<char>)
    ensures
        c@ == t@,
{
    let mut c: Vec<char> = Vec::new();
    let mut i: usize = 0;
    while i < t.len()
        invariant
            0 <= i <= t@.len(),
            c@ == t@.take(i as int),
        decreases t@.len() - i,
    {
        c.push(t[i]);
        proof {
            assert(t@.take(i + 1) =~= t@.take(i as int).push(t@[i as int]));
        }
        i = i + 1;
    }
    proof {
        assert(t@.take(t@.len() as int) =~= t@);
    }
    c
}

/// Reads a map text and appends its entities to the world.  The grid must
/// have exactly `height` rows of `width` tokens, every token recognized;
/// the first offence, in reading order, is returned and the world is left
/// untouched.
#[verifier::loop_isolation(false)]
pub fn load_map(world: &mut World, map_string: String) -> (r: Result<(), LoadError>)
    ensures
        final(world).width == old(world).width,
        final(world).height == old(world).height,
        final(world).input_queue == old(world).input_queue,
        final(world).gameplay == old(world).gameplay,
        ({
            let w = old(world).width as int;
            let h = old(world).height as int;
            match r {
                Ok(u) => {
                    &&& load_ok(map_string@, w, h)
                    &&& final(world).entities@ == old(world).entities@ + map_entities(
                        map_string@,
                    )
                },
                Err(e) => {
                    &&& !load_ok(map_string@, w, h)
                    &&& final(world).entities@ == old(world).entities@
                    &&& err_matches(e, map_string@, w, h)
                },
            }
        }),
{
    let ghost g = grid_rows(map_string@);
    let grid = build_grid(map_string.as_str());
    let width = world.width;
    let height = world.height;

    // The number of token rows must match the grid height.
    if grid.len() != height as usize {
        return Err(LoadError::BadRowCount { expected: height, found: grid.len() });
    }

    // Every row must hold exactly `width` tokens.
    let mut y: usize = 0;
    while y < grid.len()
        invariant
            0 <= y <= grid@.len(),
            forall|j: int| 0 <= j < y ==> (#[trigger] g[j]).len() == width as int,
        decreases grid@.len() - y,
    {
        if grid[y].len() != width as usize {
            proof {
                assert(g[y as int] == vec_views(grid@[y as int]@));
                assert(g[y as int].len() == grid@[y as int]@.len());
            }
            return Err(
                LoadError::BadRowWidth { y, expected: width, found: grid[y].len() },
            );
        }
        proof {
            assert(g[y as int] == vec_views(grid@[y as int]@));
            assert(g[y as int].len() == grid@[y as int]@.len());
        }
        y = y + 1;
    }

    // Every token must name a cell kind; the scan runs in reading order.
    let mut y2: usize = 0;
    while y2 < grid.len()
        invariant
            0 <= y2 <= grid@.len(),
            forall|j: int, c: int|
                0 <= j < y2 && 0 <= c < g[j].len() ==> recognized(#[trigger] g[j][c]),
        decreases grid@.len() - y2,
    {
        let row = &grid[y2];
        let mut x: usize = 0;
        while x < row.len()
            invariant
                0 <= x <= row@.len(),
                vec_views(row@) == g[y2 as int],
                0 <= y2 < grid@.len(),
                forall|c: int| 0 <= c < x ==> recognized(#[trigger] g[y2 as int][c]),
            decreases row@.len() - x,
        {
            let t = &row[x];
            proof {
                assert(g[y2 as int] == vec_views(row@));
                assert(g[y2 as int][x as int] == row@[x as int]@);
                assert(t@ == g[y2 as int][x as int]);
            }
            let ok = t.len() == 1 && (t[0] == '.' || t[0] == 'W' || t[0] == 'P' || t[0] == 'B'
                || t[0] == 'S' || t[0] == 'N');
            if !ok {
                let token = copy_chars(t);
                return Err(LoadError::UnrecognizedToken { x, y: y2, token });
            }
            x = x + 1;
        }
        y2 = y2 + 1;
    }

    // The map is valid: create the entities, one cell after the other.
    let ghost e0 = world.entities@;
    let mut y3: usize = 0;
    proof {
        assert(g.skip(0) =~= g);
    }
    while y3 < grid.len()
        invariant
            0 <= y3 <= grid@.len(),
            e0 + grid_entities(g, 0) == world.entities@ + grid_entities(
                g.skip(y3 as int),
                y3 as int,
            ),
            world.width == old(world).width,
            world.height == old(world).height,
            world.input_queue == old(world).input_queue,
            world.gameplay == old(world).gameplay,
        decreases grid@.len() - y3,
    {
        proof {
            assert(g.skip(y3 as int)[0] == g[y3 as int]);
            assert(g.skip(y3 as int).drop_first() =~= g.skip(y3 + 1));
        }
        let row = &grid[y3];
        let ghost rv = g[y3 as int];
        let mut x3: usize = 0;
        let ghost e_row = world.entities@;
        proof {
            assert(rv.skip(0) =~= rv);
        }
        while x3 < row.len()
            invariant
                0 <= x3 <= row@.len(),
                vec_views(row@) == g[y3 as int],
                0 <= y3 < grid@.len(),
                rv == g[y3 as int],
                e_row + row_entities(rv, 0, y3 as int) == world.entities@ + row_entities(
                    rv.skip(x3 as int),
                    x3 as int,
                    y3 as int,
                ),
                world.width == old(world).width,
                world.height == old(world).height,
                world.input_queue == old(world).input_queue,
                world.gameplay == old(world).gameplay,
            decreases row@.len() - x3,
        {
            proof {
                assert(rv.skip(x3 as int)[0] == rv[x3 as int]);
                assert(rv.skip(x3 as int).drop_first() =~= rv.skip(x3 + 1));
            }
            let t = &row[x3];
            let position = Position { x: x3 as u8, y: y3 as u8, z: 0 };
            let ghost e_before = world.entities@;
            let c0 = t[0];
            if c0 == '.' {
                create_floor(world, position);
            } else if c0 == 'W' {
                create_floor(world, position);
                create_wall(world, position);
            } else if c0 == 'P' {
                create_floor(world, position);
                create_player(world, position);
            } else if c0 == 'B' {
                create_floor(world, position);
                create_box(world, position);
            } else if c0 == 'S' {
                create_floor(world, position);
                create_box_spot(world, position);
            }
            proof {
                assert(e_before + token_entities(rv[x3 as int], x3 as int, y3 as int)
                    =~= world.entities@);
            }
            x3 = x3 + 1;
        }
        proof {
            assert(rv.skip(rv.len() as int) =~= Seq::<Seq<char>>::empty());
            assert(row_entities(Seq::<Seq<char>>::empty(), rv.len() as int, y3 as int)
                == Seq::<Entity>::empty());
            assert(world.entities@ + Seq::<Entity>::empty() =~= world.entities@);
        }
        y3 = y3 + 1;
    }
    proof {
        assert(g.skip(g.len() as int) =~= Seq::<Seq<Seq<char>>>::empty());
        assert(grid_entities(Seq::<Seq<Seq<char>>>::empty(), g.len() as int)
            == Seq::<Entity>::empty());
        assert(world.entities@ + Seq::<Entity>::empty() =~= world.entities@);
        assert(world.entities@ =~= e0 + map_entities(map_string@));
    }
    Ok(())
}

/// The view of the default level: an 8 x 9 grid ringed by walls, one box,
/// one scoring target, the player at column 2 of row 4.
pub open spec fn default_map_view() -> Seq<char> {
    "N N W W W W W W\nW W W . . . . W\nW . . . B . . W\nW . . . . . . W\nW . P . . . . W\nW . . . . . . W\nW . . S . . . W\nW . . . . . . W\nW W W W W W W W"@
}

/// The default level text.
pub fn default_map() -> (s: &'static str)
    ensures
        s@ == default_map_view(),
{
    "N N W W W W W W\nW W W . . . . W\nW . . . B . . W\nW . . . . . . W\nW . P . . . . W\nW . . . . . . W\nW . . S . . . W\nW . . . . . . W\nW W W W W W W W"
}

/// Loads the default level into the world; same contract as [`load_map`]
/// applied to the default map text.
pub fn initialize_level(world: &mut World) -> (r: Result<(), LoadError>)
    ensures
        final(world).width == old(world).width,
        final(world).height == old(world).height,
        final(world).input_queue == old(world).input_queue,
        final(world).gameplay == old(world).gameplay,
        ({
            let w = old(world).width as int;
            let h = old(world).height as int;
            match r {
                Ok(u) => {
                    &&& load_ok(default_map_view(), w, h)
                    &&& final(world).entities@ == old(world).entities@ + map_entities(
                        default_map_view(),
                    )
                },
                Err(e) => {
                    &&& !load_ok(default_map_view(), w, h)
                    &&& final(world).entities@ == old(world).entities@
                    &&& err_matches(e, default_map_view(), w, h)
                },
            }
        }),
{
    let map = default_map().to_owned();
    load_map(world, map)
}

} // verus!
