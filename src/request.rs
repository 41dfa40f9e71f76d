use crate::handler::RequestData;
use vstd::prelude::*;
use vstd::string::*;

verus! {

/// The pieces of `s` between occurrences of `sep`, in order; there is
/// always one more piece than separators.
pub open spec fn split_model(s: Seq<char>, sep: char) -> Seq<Seq<char>>
    decreases s.len(),
{
    if s.len() == 0 {
        seq![Seq::empty()]
    } else if s.last() == sep {
        split_model(s.drop_last(), sep).push(Seq::empty())
    } else {
        let r = split_model(s.drop_last(), sep);
        r.update(r.len() - 1, r.last().push(s.last()))
    }
}

/// `l` without one trailing carriage return.
pub open spec fn trim_cr(l: Seq<char>) -> Seq<char> {
    if l.len() > 0 && l.last() == '\r' {
        l.drop_last()
    } else {
        l
    }
}

/// Number of lines of `s`: the pieces between newlines, but for an empty
/// last piece.
pub open spec fn line_count(s: Seq<char>) -> nat {
    let p = split_model(s, '\n');
    if p.last().len() == 0 {
        (p.len() - 1) as nat
    } else {
        p.len()
    }
}

/// Line `i` of `s`: a line ended by `\r\n` loses its `\r`.
pub open spec fn line_at(s: Seq<char>, i: int) -> Seq<char> {
    let p = split_model(s, '\n');
    if i < p.len() - 1 {
        trim_cr(p[i])
    } else {
        p[i]
    }
}

/// The request a text holds: the first line gives the method (up to the
/// first space) and the path (up to the next space); the last of the
/// following lines, if any, is the message. Errors name what is missing.
pub open spec fn request_model(s: Seq<char>) -> Result<(Seq<char>, Seq<char>, Seq<char>), Seq<char>> {
    if line_count(s) == 0 {
        Err("No headline"@)
    } else {
        let words = split_model(line_at(s, 0), ' ');
        if words.len() < 2 {
            Err("No path"@)
        } else {
            Ok(
                (
                    words[0],
                    words[1],
                    if line_count(s) >= 2 {
                        line_at(s, line_count(s) - 1)
                    } else {
                        Seq::empty()
                    },
                ),
            )
        }
    }
}

/// Splits `s` at every `sep`.
pub fn split_on(s: &str, sep: char) -> (r: Vec<String>)
    ensures
        r@.map_values(|x: String| x@) == split_model(s@, sep),
{
    let n = s.unicode_len();
    let mut parts: Vec<String> = Vec::new();
    let mut start: usize = 0;
    let mut i: usize = 0;
    assert(parts@.map_values(|x: String| x@) =~= Seq::<Seq<char>>::empty());
    assert(s@.subrange(0, 0) =~= Seq::<char>::empty());
    assert(parts@.map_values(|x: String| x@).push(s@.subrange(0, 0)) =~= seq![Seq::<char>::empty()]);
    while i < n
        invariant
            n == s@.len(),
            start <= i <= n,
            split_model(s@.subrange(0, i as int), sep) == parts@.map_values(|x: String| x@).push(
                s@.subrange(start as int, i as int),
            ),
        decreases n - i,
    {
        let c = s.get_char(i);
        let ghost pre = s@.subrange(0, i as int);
        let ghost cur = s@.subrange(start as int, i as int);
        let ghost old_parts = parts@.map_values(|x: String| x@);
        assert(s@.subrange(0, i + 1).drop_last() =~= pre);
        assert(s@.subrange(0, i + 1).last() == c);
        if c == sep {
            let piece = String::from_str(s.substring_char(start, i));
            parts.push(piece);
            start = i + 1;
            assert(parts@.map_values(|x: String| x@) =~= old_parts.push(cur));
            assert(s@.subrange(start as int, i + 1) =~= Seq::<char>::empty());
            assert(split_model(s@.subrange(0, i + 1), sep) =~= parts@.map_values(|x: String| x@).push(
                s@.subrange(start as int, i + 1),
            ));
        } else {
            assert(s@.subrange(start as int, i + 1) =~= cur.push(c));
            assert(parts@.map_values(|x: String| x@) =~= old_parts);
            assert(split_model(s@.subrange(0, i + 1), sep) =~= parts@.map_values(|x: String| x@).push(
                s@.subrange(start as int, i + 1),
            ));
        }
        i = i + 1;
    }
    let last = String::from_str(s.substring_char(start, n));
    parts.push(last);
    assert(s@.subrange(0, n as int) =~= s@);
    assert(parts@.map_values(|x: String| x@) =~= split_model(s@, sep));
    parts
}

/// Splitting gives at least one piece.
pub proof fn lemma_split_nonempty(s: Seq<char>, sep: char)
    ensures
        split_model(s, sep).len() >= 1,
    decreases s.len(),
{
    if s.len() > 0 {
        lemma_split_nonempty(s.drop_last(), sep);
    }
}

/// A copy of `l`, without a trailing carriage return where `ended` says
/// the line was ended by a newline.
fn trim_line(l: &String, ended: bool) -> (r: String)
    ensures
        r@ == if ended {
            trim_cr(l@)
        } else {
            l@
        },
{
    let n = l.as_str().unicode_len();
    if ended && n > 0 && l.as_str().get_char(n - 1) == '\r' {
        let r = String::from_str(l.as_str().substring_char(0, n - 1));
        assert(r@ =~= l@.drop_last());
        r
    } else {
        l.clone()
    }
}

/// Parses the text of a request into method, path and message.
pub fn parse_request(text: &str) -> (r: Result<RequestData, String>)
    ensures
        match request_model(text@) {
            Ok((method, path, message)) => r is Ok && r->Ok_0.method@ == method && r->Ok_0.path@
                == path && r->Ok_0.message@ == message,
            Err(e) => r is Err && r->Err_0@ == e,
        },
{
    let segs = split_on(text, '\n');
    proof {
        lemma_split_nonempty(text@, '\n');
    }
    let total = segs.len();
    let count = if segs[total - 1].as_str().unicode_len() == 0 {
        total - 1
    } else {
        total
    };
    if count == 0 {
        return Err(String::from_str("No headline"));
    }
    let head = trim_line(&segs[0], 0 < total - 1);
    let words = split_on(head.as_str(), ' ');
    if words.len() < 2 {
        return Err(String::from_str("No path"));
    }
    let message = if count >= 2 {
        trim_line(&segs[count - 1], count - 1 < total - 1)
    } else {
        String::new()
    };
    Ok(RequestData { method: words[0].clone(), path: words[1].clone(), message })
}

} // verus!
