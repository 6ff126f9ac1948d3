use vstd::prelude::*;

verus! {

/// `s` with every single quote doubled, as SQL writes a quote inside a string.
pub open spec fn escaped(s: Seq<char>) -> Seq<char>
    decreases s.len(),
{
    if s.len() == 0 {
        Seq::empty()
    } else {
        escaped(s.drop_last()) + if s.last() == '\'' {
            "''"@
        } else {
            seq![s.last()]
        }
    }
}

/// The column the list is ordered by: the score, or the time of the game.
pub open spec fn order_column(by_score: bool) -> Seq<char> {
    if by_score {
        "score"@
    } else {
        "timestamp"@
    }
}

/// The query for the highscore list, best first by `order_column`, of the games
/// of one player's tag or of all.
pub open spec fn query_text(by_score: bool, idtag: Option<Seq<char>>) -> Seq<char> {
    match idtag {
        Some(t) => "SELECT id, name, timestamp, endLevel, score, game\n                    FROM replay\n                    WHERE idtag = '"@
            + escaped(t) + "'\n                    ORDER BY "@ + order_column(by_score) + " DESC"@,
        None => "SELECT id, name, timestamp, endLevel, score, game\n                    FROM replay\n                    ORDER BY "@
            + order_column(by_score) + " DESC"@,
    }
}

/// `s` with every single quote doubled (see `escaped`).
pub fn escape_quotes(s: &str) -> (result: String)
    ensures
        result@ == escaped(s@),
{
    let n = s.unicode_len();
    let mut out = String::new();
    let mut i: usize = 0;
    proof {
        assert(s@.take(0) =~= Seq::<char>::empty());
    }
    while i < n
        invariant
            n == s@.len(),
            i <= n,
            out@ == escaped(s@.take(i as int)),
        decreases n - i,
    {
        let c = s.get_char(i);
        let ghost before = out@;
        if c == '\'' {
            out.append("''");
        } else {
            out.append(s.substring_char(i, i + 1));
        }
        proof {
            let t = s@.take(i + 1);
            assert(t.drop_last() =~= s@.take(i as int));
            assert(t.last() == c);
            if c != '\'' {
                assert(s@.subrange(i as int, i + 1) =~= seq![c]);
            }
        }
        i = i + 1;
    }
    proof {
        assert(s@.take(n as int) =~= s@);
    }
    out
}

/// The query for the highscore list (see `query_text`); the tag is escaped.
pub fn highscore_query(by_score: bool, idtag: Option<&str>) -> (result: String)
    ensures
        result@ == query_text(
            by_score,
            match idtag {
                Some(t) => Some(t@),
                None => None,
            },
        ),
{
    let order = if by_score { "score" } else { "timestamp" };
    match idtag {
        Some(t) => {
            let tag = escape_quotes(t);
            let mut q = String::from_str(
                "SELECT id, name, timestamp, endLevel, score, game\n                    FROM replay\n                    WHERE idtag = '",
            );
            q.append(tag.as_str());
            q.append("'\n                    ORDER BY ");
            q.append(order);
            q.append(" DESC");
            q
        },
        None => {
            let mut q = String::from_str(
                "SELECT id, name, timestamp, endLevel, score, game\n                    FROM replay\n                    ORDER BY ",
            );
            q.append(order);
            q.append(" DESC");
            q
        },
    }
}

} // verus!
