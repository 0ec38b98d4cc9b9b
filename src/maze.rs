use vstd::prelude::*;

verus! {

/// The rows of a maze as character sequences.
pub open spec fn rows_view(maze: Seq<Vec<char>>) -> Seq<Seq<char>> {
    maze.map_values(|r: Vec<char>| r@)
}

/// Maze text: every row followed by a newline.
pub open spec fn maze_text(rows: Seq<Seq<char>>) -> Seq<char>
    decreases rows.len(),
{
    if rows.len() == 0 {
        seq![]
    } else {
        maze_text(rows.drop_last()) + rows.last() + seq!['\n']
    }
}

/// Splits text into the rows ended by a newline so far and the row still
/// open at its end.
pub open spec fn split_rows(s: Seq<char>) -> (Seq<Seq<char>>, Seq<char>)
    decreases s.len(),
{
    if s.len() == 0 {
        (seq![], seq![])
    } else {
        let (rows, cur) = split_rows(s.drop_last());
        if s.last() == '\n' {
            (rows.push(cur), seq![])
        } else {
            (rows, cur.push(s.last()))
        }
    }
}

/// The rows of maze text, one per line; a last line without a newline is
/// still a row.
pub open spec fn parse_rows(s: Seq<char>) -> Seq<Seq<char>> {
    let (rows, cur) = split_rows(s);
    if cur.len() == 0 {
        rows
    } else {
        rows.push(cur)
    }
}

/// `s` with a newline appended unless it is empty or already ends in one.
pub open spec fn terminated(s: Seq<char>) -> Seq<char> {
    if s.len() == 0 || s.last() == '\n' {
        s
    } else {
        s.push('\n')
    }
}

proof fn lemma_split_rows(s: Seq<char>)
    ensures
        maze_text(split_rows(s).0) + split_rows(s).1 == s,
        split_rows(s).1.len() == 0 <==> (s.len() == 0 || s.last() == '\n'),
    decreases s.len(),
{
    if s.len() > 0 {
        let p = s.drop_last();
        lemma_split_rows(p);
        let (rows, cur) = split_rows(p);
        if s.last() == '\n' {
            assert(rows.push(cur).drop_last() =~= rows);
            assert(s =~= p.push(s.last()));
            assert(maze_text(rows.push(cur)) + seq![] =~= s);
        } else {
            assert(s =~= p.push(s.last()));
            assert((maze_text(rows) + cur).push(s.last()) =~= maze_text(rows) + cur.push(s.last()));
        }
    }
}

/// Loading maze text and writing its rows back out gives the text again, up
/// to a newline at its end.
pub proof fn lemma_round_trip(s: Seq<char>)
    ensures
        maze_text(parse_rows(s)) == terminated(s),
{
    lemma_split_rows(s);
    let (rows, cur) = split_rows(s);
    if cur.len() == 0 {
        assert(maze_text(rows) =~= s);
    } else {
        assert(rows.push(cur).drop_last() =~= rows);
        assert(maze_text(rows.push(cur)) =~= s.push('\n'));
    }
}

/// The maze rows of `text`, one per line, characters in order.
pub fn parse_maze(text: &Vec<char>) -> (r: Vec<Vec<char>>)
    ensures
        rows_view(r@) == parse_rows(text@),
{
    let mut rows: Vec<Vec<char>> = Vec::new();
    let mut cur: Vec<char> = Vec::new();
    let mut i: usize = 0;
    while i < text.len()
        invariant
            i <= text@.len(),
            (rows_view(rows@), cur@) == split_rows(text@.take(i as int)),
        decreases text@.len() - i,
    {
        let c = text[i];
        assert(text@.take(i + 1).drop_last() =~= text@.take(i as int));
        if c == '\n' {
            let ghost before = rows@;
            let done = cur;
            cur = Vec::new();
            rows.push(done);
            assert(rows_view(rows@) =~= rows_view(before).push(done@));
        } else {
            cur.push(c);
        }
        i = i + 1;
    }
    assert(text@.take(i as int) =~= text@);
    if cur.len() > 0 {
        let ghost before = rows@;
        let ghost last = cur@;
        rows.push(cur);
        assert(rows_view(rows@) =~= rows_view(before).push(last));
    }
    rows
}

/// The maze written as text, each row followed by a newline.
pub fn maze_to_text(maze: &Vec<Vec<char>>) -> (r: Vec<char>)
    ensures
        r@ == maze_text(rows_view(maze@)),
{
    let mut out: Vec<char> = Vec::new();
    let mut i: usize = 0;
    while i < maze.len()
        invariant
            i <= maze@.len(),
            out@ == maze_text(rows_view(maze@).take(i as int)),
        decreases maze@.len() - i,
    {
        let row = &maze[i];
        let ghost start = out@;
        let mut j: usize = 0;
        while j < row.len()
            invariant
                j <= row@.len(),
                out@ == start + row@.take(j as int),
            decreases row@.len() - j,
        {
            out.push(row[j]);
            assert(row@.take(j + 1) =~= row@.take(j as int).push(row@[j as int]));
            j = j + 1;
        }
        out.push('\n');
        assert(rows_view(maze@).take(i + 1).drop_last() =~= rows_view(maze@).take(i as int));
        assert(row@.take(j as int) =~= row@);
        i = i + 1;
    }
    assert(rows_view(maze@).take(i as int) =~= rows_view(maze@));
    out
}

} // verus!
