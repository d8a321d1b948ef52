//! The full pipeline: extract the marker region, parse every line in it, and
//! emit both artifacts — a pure function of the input lines.

use vstd::prelude::*;

use crate::emit::{emit_packets, emit_record_functions, packets_text, records_text};
use crate::parse::{parse_api, parse_line, ParseError};
use crate::proto::{protos_view, ParsedPrototype, Prototype};
use crate::region::{extract_region, region_lines};

verus! {

/// The line that opens the prototype region.
pub open spec fn begin_marker_spec() -> Seq<char> {
    "#ifdef GL_GLEXT_PROTOTYPES"@
}

/// The line that closes the prototype region.
pub open spec fn end_marker_spec() -> Seq<char> {
    "#endif"@
}

/// The line that opens the prototype region.
pub fn begin_marker() -> (r: &'static str)
    ensures
        r@ == begin_marker_spec(),
{
    "#ifdef GL_GLEXT_PROTOTYPES"
}

/// The line that closes the prototype region.
pub fn end_marker() -> (r: &'static str)
    ensures
        r@ == end_marker_spec(),
{
    "#endif"
}

/// Every region line parsed in order; the first malformed line aborts the
/// whole run with its error.
pub open spec fn parse_all(lines: Seq<Seq<char>>) -> Result<Seq<Prototype>, ParseError>
    decreases lines.len(),
{
    if lines.len() == 0 {
        Ok(Seq::empty())
    } else {
        match parse_line(lines[0]) {
            Err(e) => Err(e),
            Ok(r) => match parse_all(lines.skip(1)) {
                Err(e) => Err(e),
                Ok(rs) => Ok(seq![r] + rs),
            },
        }
    }
}

/// What the whole run produces from the input lines: the packet artifact and
/// the record-function artifact, or the error of the first malformed region
/// line.
pub open spec fn generate_spec(lines: Seq<Seq<char>>) -> Result<
    (Seq<char>, Seq<char>),
    ParseError,
> {
    let region = region_lines(lines, begin_marker_spec(), end_marker_spec(), false);
    match parse_all(region) {
        Err(e) => Err(e),
        Ok(rs) => Ok((packets_text(rs), records_text(rs))),
    }
}

/// A successful `parse_all` yields exactly one record per line, each the
/// parse of the line at the same position.
pub proof fn lemma_parse_all_pointwise(ls: Seq<Seq<char>>)
    ensures
        parse_all(ls) matches Ok(rs) ==> rs.len() == ls.len() && forall|n: int|
            0 <= n < ls.len() ==> parse_line(ls[n]) == Ok::<Prototype, ParseError>(
                #[trigger] rs[n],
            ),
    decreases ls.len(),
{
    if ls.len() == 0 {
    } else if parse_all(ls) is Ok {
        lemma_parse_all_pointwise(ls.skip(1));
        let rs = parse_all(ls).unwrap();
        let rest = parse_all(ls.skip(1)).unwrap();
        assert(rs == seq![parse_line(ls[0]).unwrap()] + rest);
        assert forall|n: int| 0 <= n < ls.len() implies parse_line(ls[n]) == Ok::<
            Prototype,
            ParseError,
        >(#[trigger] rs[n]) by {
            if n > 0 {
                assert(ls.skip(1)[n - 1] == ls[n]);
                assert(rest[n - 1] == rs[n]);
            }
        }
    }
}

/// Region isolation carried to the parsed records: every record of a
/// successful run is the parse of an input line that stands inside a marker
/// region — no line outside the markers reaches a record or, through the
/// emitters, the generated artifacts.
pub proof fn lemma_records_only_from_region(lines: Seq<Seq<char>>)
    ensures
        parse_all(region_lines(lines, begin_marker_spec(), end_marker_spec(), false)) matches Ok(
            rs,
        ) ==> forall|n: int|
            0 <= n < rs.len() ==> exists|i: int|
                0 <= i < lines.len() && crate::region::state_at(
                    lines,
                    begin_marker_spec(),
                    end_marker_spec(),
                    false,
                    i,
                ) && lines[i] != end_marker_spec() && parse_line(lines[i]) == Ok::<
                    Prototype,
                    ParseError,
                >(#[trigger] rs[n]),
{
    let region = region_lines(lines, begin_marker_spec(), end_marker_spec(), false);
    if parse_all(region) is Ok {
        let rs = parse_all(region).unwrap();
        lemma_parse_all_pointwise(region);
        crate::region::lemma_region_isolation(
            lines,
            begin_marker_spec(),
            end_marker_spec(),
            false,
        );
        assert forall|n: int| 0 <= n < rs.len() implies exists|i: int|
            0 <= i < lines.len() && crate::region::state_at(
                lines,
                begin_marker_spec(),
                end_marker_spec(),
                false,
                i,
            ) && lines[i] != end_marker_spec() && parse_line(lines[i]) == Ok::<
                Prototype,
                ParseError,
            >(#[trigger] rs[n]) by {
            assert(parse_line(region[n]) == Ok::<Prototype, ParseError>(rs[n]));
            let i = choose|i: int|
                0 <= i < lines.len() && lines[i] == #[trigger] region[n]
                    && crate::region::state_at(
                    lines,
                    begin_marker_spec(),
                    end_marker_spec(),
                    false,
                    i,
                ) && lines[i] != end_marker_spec();
            assert(parse_line(lines[i]) == Ok::<Prototype, ParseError>(rs[n]));
        }
    }
}

/// Determinism: the pipeline is a pure function of its input lines, so two
/// runs over equal inputs yield byte-identical artifacts.
pub proof fn lemma_generate_deterministic(a: Seq<Seq<char>>, b: Seq<Seq<char>>)
    requires
        a == b,
    ensures
        generate_spec(a) == generate_spec(b),
{
}

/// Runs the pipeline, exactly as `generate_spec` states: both artifacts on a
/// well-formed input, and the first malformed region line's error otherwise.
#[verifier::loop_isolation(false)]
pub fn generate(lines: &Vec<String>) -> (r: Result<(String, String), ParseError>)
    ensures
        match r {
            Ok(out) => generate_spec(lines.deep_view()) == Ok::<(Seq<char>, Seq<char>), ParseError>(
                (out.0@, out.1@),
            ),
            Err(e) => generate_spec(lines.deep_view()) == Err::<(Seq<char>, Seq<char>), ParseError>(
                e,
            ),
        },
{
    let region = extract_region(lines, begin_marker(), end_marker());
    let ghost reg = region.deep_view();
    let mut protos: Vec<ParsedPrototype> = Vec::new();
    let mut i: usize = 0;
    proof {
        assert(reg.skip(0) =~~= reg);
        assert(protos_view(protos@) =~= Seq::<Prototype>::empty());
    }
    while i < region.len()
        invariant
            0 <= i <= region.len(),
            match parse_all(reg.skip(i as int)) {
                Ok(rest) => parse_all(reg) == Ok::<Seq<Prototype>, ParseError>(
                    protos_view(protos@) + rest,
                ),
                Err(e) => parse_all(reg) == Err::<Seq<Prototype>, ParseError>(e),
            },
        decreases region.len() - i,
    {
        proof {
            assert(reg.skip(i as int)[0] == region@[i as int]@);
            assert(reg.skip(i as int).skip(1) =~~= reg.skip(i as int + 1));
        }
        match parse_api(region[i].as_str()) {
            Ok(p) => {
                let ghost old_protos = protos_view(protos@);
                protos.push(p);
                proof {
                    assert(protos_view(protos@) =~= old_protos + seq![p@]);
                    if parse_all(reg.skip(i as int + 1)) is Ok {
                        let rest = parse_all(reg.skip(i as int + 1)).unwrap();
                        assert(old_protos + (seq![p@] + rest) =~= protos_view(protos@) + rest);
                    }
                }
            },
            Err(e) => {
                return Err(e);
            },
        }
        i = i + 1;
    }
    proof {
        assert(reg.skip(region.len() as int) =~~= Seq::<Seq<char>>::empty());
        let rs = parse_all(reg).unwrap();
        assert(rs =~= protos_view(protos@));
    }
    let packets = emit_packets(&protos);
    let records = emit_record_functions(&protos);
    Ok((packets, records))
}

} // verus!
