//! Reading a proof back from its debug text, such as
//! `Proof { a: G1Affine { x: 0x0e.., y: 0x04.., infinity: Choice(0) }, b: G2Affine { .. }, c: G1Affine { .. } }`.
//!
//! The text is taken apart with regular expressions; what is done with
//! the parts is decided here.

use vstd::prelude::*;
use vstd::string::StringExecFns;
use crate::record::texts;

verus! {

/// A point of the first group, by the texts of its coordinates.
#[derive(Debug, Clone)]
pub struct G1Affine {
    pub x: String,
    pub y: String,
    pub infinity: String,
}

/// A point of the second group, by the texts of its coordinates.
#[derive(Debug, Clone)]
pub struct G2Affine {
    pub x: String,
    pub y: String,
    pub infinity: String,
}

/// A proof, by the texts of its three points.
#[derive(Debug, Clone)]
pub struct Proof {
    pub a: G1Affine,
    pub b: G2Affine,
    pub c: G1Affine,
}

/// The texts of a point: `x`, `y` and `infinity`.
pub struct PointModel {
    pub x: Seq<char>,
    pub y: Seq<char>,
    pub infinity: Seq<char>,
}

/// The successive matches of a pattern in a text, leftmost first, as the
/// `regex` crate finds them, each by the texts of its groups: the whole
/// match first, then the capture groups in order, with nothing for a group
/// that took no part. Nothing at all when the pattern is invalid.
pub uninterp spec fn regex_all_matches(pattern: Seq<char>, text: Seq<char>) -> Option<
    Seq<Seq<Option<Seq<char>>>>,
>;

/// The text of a group, if it took part.
pub open spec fn group_text(group: Option<String>) -> Option<Seq<char>> {
    match group {
        Some(text) => Some(text@),
        None => None,
    }
}

/// The texts of the groups of a match.
pub open spec fn group_texts(groups: Seq<Option<String>>) -> Seq<Option<Seq<char>>> {
    groups.map_values(|g: Option<String>| group_text(g))
}

/// The texts of the groups of a list of matches.
pub open spec fn all_group_texts(matches: Seq<Vec<Option<String>>>) -> Seq<
    Seq<Option<Seq<char>>>,
> {
    matches.map_values(|m: Vec<Option<String>>| group_texts(m@))
}

/// `Regex::new`, then `Regex::captures_iter`: the groups of every match,
/// in order.
#[verifier::external_body]
fn all_matches(pattern: &str, text: &str) -> (found: Option<Vec<Vec<Option<String>>>>)
    ensures
        match regex_all_matches(pattern@, text@) {
            Some(matches) => found matches Some(v) && all_group_texts(v@) == matches,
            None => found is None,
        },
{
    let re = regex::Regex::new(pattern).ok()?;
    let groups = |c: regex::Captures| c.iter().map(|g| g.map(|m| m.as_str().to_string())).collect();
    Some(re.captures_iter(text).map(groups).collect())
}

/// What a match captured: the texts of its capture groups, without the
/// whole match that stands before them, a group that took no part being
/// empty.
pub open spec fn captured(groups: Seq<Option<Seq<char>>>) -> Seq<Seq<char>> {
    Seq::new(
        if groups.len() == 0 {
            0
        } else {
            (groups.len() - 1) as nat
        },
        |i: int|
            match groups[i + 1] {
                Some(text) => text,
                None => Seq::empty(),
            },
    )
}

/// What the successive matches of a pattern in a text captured; nothing
/// when the pattern is invalid.
pub open spec fn captures(pattern: Seq<char>, text: Seq<char>) -> Option<Seq<Seq<Seq<char>>>> {
    match regex_all_matches(pattern, text) {
        Some(matches) => Some(matches.map_values(|m: Seq<Option<Seq<char>>>| captured(m))),
        None => None,
    }
}

/// The texts of the captures of a list of matches.
pub open spec fn match_texts(matches: Seq<Vec<String>>) -> Seq<Seq<Seq<char>>> {
    matches.map_values(|m: Vec<String>| texts(m@))
}

/// Takes what a match captured from its groups.
fn capture_texts(groups: &Vec<Option<String>>) -> (out: Vec<String>)
    ensures
        texts(out@) == captured(group_texts(groups@)),
{
    let mut out: Vec<String> = Vec::new();
    let mut i: usize = 1;
    while i < groups.len()
        invariant
            1 <= i,
            i <= groups@.len() || i == 1,
            out@.len() == i - 1,
            forall|k: int|
                0 <= k < out@.len() ==> (#[trigger] out@[k])@ == captured(group_texts(groups@))[k],
        decreases groups@.len() - i,
    {
        proof {
            assert(group_texts(groups@)[i as int] == group_text(groups@[i as int]));
        }
        let text = match &groups[i] {
            Some(text) => text.clone(),
            None => String::new(),
        };
        out.push(text);
        i += 1;
    }
    proof {
        let expected = captured(group_texts(groups@));
        assert(group_texts(groups@).len() == groups@.len());
        assert(texts(out@).len() == expected.len());
        assert forall|k: int| 0 <= k < expected.len() implies texts(out@)[k] == expected[k] by {
            assert(texts(out@)[k] == out@[k]@);
        }
        assert(texts(out@) =~= expected);
    }
    out
}

/// Finds what the successive matches of a pattern in a text captured.
pub fn find_captures(pattern: &str, text: &str) -> (found: Option<Vec<Vec<String>>>)
    ensures
        match captures(pattern@, text@) {
            Some(matches) => found matches Some(v) && match_texts(v@) == matches,
            None => found is None,
        },
{
    let matches = all_matches(pattern, text)?;
    let mut found: Vec<Vec<String>> = Vec::new();
    let mut i: usize = 0;
    while i < matches.len()
        invariant
            i <= matches@.len(),
            found@.len() == i,
            forall|k: int|
                0 <= k < i ==> texts((#[trigger] found@[k])@) == captured(group_texts(matches@[k]@)),
        decreases matches@.len() - i,
    {
        found.push(capture_texts(&matches[i]));
        i += 1;
    }
    proof {
        let all = all_group_texts(matches@);
        let expected = all.map_values(|m: Seq<Option<Seq<char>>>| captured(m));
        assert forall|k: int| 0 <= k < found@.len() implies match_texts(found@)[k]
            == expected[k] by {
            assert(all[k] == group_texts(matches@[k]@));
        }
        assert(match_texts(found@) =~= expected);
    }
    Some(found)
}

/// The pattern of one coordinate: a name, a colon, and a hex number or a
/// word with a number in brackets.
pub open spec fn coordinate_pattern() -> Seq<char> {
    r"(\w+):\s*(0x[0-9a-fA-F]+|\w+\(\d+\))"@
}

/// The pattern of a proof: the bodies of its points `a`, `b` and `c`.
pub open spec fn proof_pattern() -> Seq<char> {
    r"a:\s*G1Affine\s*\{(.*?)\},\s*b:\s*G2Affine\s*\{(.*?)\},\s*c:\s*G1Affine\s*\{(.*?)\}"@
}

/// The value that the last match with the given name holds, among matches
/// of a name and a value.
pub open spec fn last_value(matches: Seq<Seq<Seq<char>>>, name: Seq<char>) -> Option<Seq<char>>
    decreases matches.len(),
{
    if matches.len() == 0 {
        None
    } else if matches.last().len() >= 2 && matches.last()[0] == name {
        Some(matches.last()[1])
    } else {
        last_value(matches.drop_last(), name)
    }
}

/// The coordinates that a point's body names, each by the last value
/// given to it.
pub open spec fn coordinates_of(body: Seq<char>) -> Seq<Seq<Seq<char>>> {
    match captures(coordinate_pattern(), body) {
        Some(matches) => matches,
        None => Seq::empty(),
    }
}

/// The point that a body stands for, if it names all three coordinates.
pub open spec fn point_of(body: Seq<char>) -> Option<PointModel> {
    let found = coordinates_of(body);
    match (last_value(found, "x"@), last_value(found, "y"@), last_value(found, "infinity"@)) {
        (Some(x), Some(y), Some(infinity)) => Some(PointModel { x, y, infinity }),
        _ => None,
    }
}

/// The three points that a text stands for, if it is a proof's: those of
/// the leftmost match of the proof pattern.
pub open spec fn proof_of(input: Seq<char>) -> Option<(PointModel, PointModel, PointModel)> {
    match captures(proof_pattern(), input) {
        Some(matches) => if matches.len() > 0 && matches[0].len() >= 3 {
            let bodies = matches[0];
            match (point_of(bodies[0]), point_of(bodies[1]), point_of(bodies[2])) {
                (Some(a), Some(b), Some(c)) => Some((a, b, c)),
                _ => None,
            }
        } else {
            None
        },
        None => None,
    }
}

impl G1Affine {
    /// The texts of the point.
    pub open spec fn model(self) -> PointModel {
        PointModel { x: self.x@, y: self.y@, infinity: self.infinity@ }
    }
}

impl G2Affine {
    /// The texts of the point.
    pub open spec fn model(self) -> PointModel {
        PointModel { x: self.x@, y: self.y@, infinity: self.infinity@ }
    }
}

/// Finds the coordinates that a point's body names: every match of a name
/// and a value, in order.
pub fn parse_affine(text: &str) -> (found: Vec<Vec<String>>)
    ensures
        match_texts(found@) == coordinates_of(text@),
{
    match find_captures(r"(\w+):\s*(0x[0-9a-fA-F]+|\w+\(\d+\))", text) {
        Some(found) => found,
        None => {
            let found: Vec<Vec<String>> = Vec::new();
            proof {
                assert(match_texts(found@) =~= Seq::<Seq<Seq<char>>>::empty());
            }
            found
        },
    }
}

/// Looks up the last value given to a name.
fn value_of(found: &Vec<Vec<String>>, name: &str) -> (value: Option<String>)
    ensures
        match last_value(match_texts(found@), name@) {
            Some(text) => value matches Some(v) && v@ == text,
            None => value is None,
        },
{
    let wanted = String::from_str(name);
    let ghost all = match_texts(found@);
    let mut i: usize = found.len();
    proof {
        assert(all.take(i as int) =~= all);
    }
    while i > 0
        invariant
            i <= found@.len(),
            all == match_texts(found@),
            wanted@ == name@,
            last_value(all, name@) == last_value(all.take(i as int), name@),
        decreases i,
    {
        let entry = &found[i - 1];
        proof {
            let upto = all.take(i as int);
            assert(upto.last() == texts(entry@));
            assert(upto.drop_last() =~= all.take(i - 1));
            if entry@.len() >= 2 {
                assert(texts(entry@)[0] == entry@[0]@);
                assert(texts(entry@)[1] == entry@[1]@);
            }
        }
        if entry.len() >= 2 && entry[0] == wanted {
            return Some(entry[1].clone());
        }
        i -= 1;
    }
    None
}

/// Reads a proof from its debug text. `None` when the text lacks one of
/// the three points or a point one of its coordinates.
pub fn parse_proof(input: &str) -> (proof: Option<Proof>)
    ensures
        match proof_of(input@) {
            Some((a, b, c)) => proof matches Some(p) && p.a.model() == a && p.b.model() == b
                && p.c.model() == c,
            None => proof is None,
        },
{
    let matches = find_captures(
        r"a:\s*G1Affine\s*\{(.*?)\},\s*b:\s*G2Affine\s*\{(.*?)\},\s*c:\s*G1Affine\s*\{(.*?)\}",
        input,
    )?;
    if matches.len() == 0 {
        return None;
    }
    let bodies = &matches[0];
    if bodies.len() < 3 {
        return None;
    }
    proof {
        assert(match_texts(matches@)[0] == texts(bodies@));
        assert(texts(bodies@)[0] == bodies@[0]@);
        assert(texts(bodies@)[1] == bodies@[1]@);
        assert(texts(bodies@)[2] == bodies@[2]@);
    }
    let a_data = parse_affine(bodies[0].as_str());
    let a = G1Affine {
        x: value_of(&a_data, "x")?,
        y: value_of(&a_data, "y")?,
        infinity: value_of(&a_data, "infinity")?,
    };
    let b_data = parse_affine(bodies[1].as_str());
    let b = G2Affine {
        x: value_of(&b_data, "x")?,
        y: value_of(&b_data, "y")?,
        infinity: value_of(&b_data, "infinity")?,
    };
    let c_data = parse_affine(bodies[2].as_str());
    let c = G1Affine {
        x: value_of(&c_data, "x")?,
        y: value_of(&c_data, "y")?,
        infinity: value_of(&c_data, "infinity")?,
    };
    Some(Proof { a, b, c })
}

} // verus!
