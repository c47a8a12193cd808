//! The parser read side by side with the same grammar written with nom's
//! combinators, quoted literals kept whole.
use deltactl::filter_condition;
use nom::branch::alt;
use nom::bytes::complete::{tag, tag_no_case};
use nom::character::complete::{alpha1, alphanumeric1, char, one_of, space0};
use nom::combinator::recognize;
use nom::multi::{many0_count, many1_count};
use nom::number::complete::recognize_float;
use nom::sequence::{delimited, pair, preceded, terminated};
use nom::{IResult, Parser};

fn operator(input: &str) -> IResult<&str, &str> {
    terminated(
        preceded(
            space0,
            alt((
                tag("="),
                tag("!="),
                tag(">="),
                tag(">"),
                tag("<="),
                tag("<"),
                tag_no_case("in"),
                tag_no_case("not in"),
            )),
        ),
        space0,
    )
    .parse(input)
}

fn column(input: &str) -> IResult<&str, &str> {
    recognize(pair(
        alt((alpha1, tag("_"))),
        many0_count(alt((alphanumeric1, tag("_")))),
    ))
    .parse(input)
}

fn field(input: &str) -> IResult<&str, &str> {
    alt((
        recognize_float,
        recognize(many1_count(one_of("0123456789"))),
        recognize(delimited(
            char('\''),
            many1_count(alt((alphanumeric1, tag("_"), tag("-"), tag(".")))),
            char('\''),
        )),
    ))
    .parse(input)
}

fn condition(input: &str) -> Option<(&str, &str, &str)> {
    (
        preceded(space0, column),
        preceded(space0, operator),
        preceded(space0, field),
    )
        .parse(input)
        .ok()
        .map(|(_, v)| v)
}

#[test]
fn agrees_with_nom_on_samples() {
    let columns = ["id", "_x", "a1", "in", "not", "1c", "", "é"];
    let gaps = ["", " ", "\t ", "  "];
    let ops = ["=", "!=", ">=", ">", "<=", "<", "in", "IN", "not in", "NoT iN", "==", "<>", "~", "!", "not  in"];
    let lits = [
        "200", "1.42", "-5", "+.5e-3", "1.", ".5", "1e", "5east", "12E+7", "'a-b.c_d'", "''",
        "'x", "x", "-", ".", "1.5.5", "'a'b", "200é",
    ];
    let mut checked = 0;
    for c in columns {
        for g1 in gaps {
            for o in ops {
                for g2 in gaps {
                    for l in lits {
                        let input = format!("{}{}{}{}{}", c, g1, o, g2, l);
                        let ours = filter_condition(&input).ok();
                        assert_eq!(ours, condition(&input), "input {:?}", input);
                        checked += 1;
                    }
                }
            }
        }
    }
    assert!(checked > 10_000);
}
