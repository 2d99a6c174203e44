//! Names of generated images (`b<background>f<foreground>p<position>`) and how the
//! statistics step reads the background, foreground and position back out of them.
use vstd::prelude::*;
use vstd::string::*;
use crate::position::{
    ROIPosition, int_to_position, lemma_code_round_trip, position_to_int, spec_position_code,
    spec_position_of_code,
};
use crate::text::{
    all_digits, decimal_digits, digit_char, digit_text, digit_value, digits_value,
    lemma_decimal_round_trip, is_alphabetic, lemma_parsable_not_alphabetic, lemma_split_append_plain,
    parse_unsigned, parse_unsigned_chars, split_alphabetic, split_at_alphabetic, unsigned_digits,
};

verus! {

/// Background number, foreground number and position read from a file name.
pub type NameKey = (usize, usize, ROIPosition);

/// A number inside a file name that `str::parse` refuses (the name cannot be read).
#[derive(Debug, Clone, Copy, PartialEq, Eq, Structural)]
pub enum FileNameError {
    MalformedNumber,
}

/// The pieces of a file name are readable: every piece that is read parses.
pub open spec fn name_pieces_readable(pieces: Seq<Seq<char>>) -> bool {
    pieces.len() >= 2 ==> {
        &&& parse_unsigned(pieces[1], usize::MAX as nat) is Some
        &&& pieces.len() >= 3 ==> {
            &&& parse_unsigned(pieces[2], usize::MAX as nat) is Some
            &&& pieces.len() >= 4 ==> parse_unsigned(pieces[3], u8::MAX as nat) is Some
        }
    }
}

/// The key of a name: pieces 1, 2 and 3 (after the first alphabetic character, the
/// second and the third) give background, foreground and position code.
pub open spec fn name_pieces_key(pieces: Seq<Seq<char>>) -> Option<NameKey> {
    if pieces.len() >= 4 {
        Some(
            (
                parse_unsigned(pieces[1], usize::MAX as nat).unwrap() as usize,
                parse_unsigned(pieces[2], usize::MAX as nat).unwrap() as usize,
                spec_position_of_code(parse_unsigned(pieces[3], u8::MAX as nat).unwrap() as u8),
            ),
        )
    } else {
        None
    }
}

/// A file name can be read without a number failing to parse.
pub open spec fn file_name_readable(s: Seq<char>) -> bool {
    name_pieces_readable(split_alphabetic(s))
}

/// What reading a file name gives.
pub open spec fn spec_parse_file_name(s: Seq<char>) -> Option<NameKey> {
    name_pieces_key(split_alphabetic(s))
}

/// Reads background, foreground and position from a file name such as `b12f3p4`:
/// the name is split at alphabetic characters, the first piece is skipped, the
/// next two are decimal numbers and the fourth is a position code. A name with
/// fewer than four pieces gives nothing.
pub fn parse_file_name(file_name: &String) -> (r: Option<NameKey>)
    requires
        file_name_readable(file_name@),
    ensures
        r == spec_parse_file_name(file_name@),
{
    let pieces = split_at_alphabetic(file_name.as_str());
    let ghost views = pieces@.map_values(|v: Vec<char>| v@);
    if pieces.len() < 2 {
        return None;
    }
    assert(views[1] == pieces@[1]@);
    let background = parse_unsigned_chars(&pieces[1], usize::MAX);
    let background = match background {
        Some(b) => b,
        None => {
            return None;
        },
    };
    if pieces.len() < 3 {
        return None;
    }
    assert(views[2] == pieces@[2]@);
    let foreground = match parse_unsigned_chars(&pieces[2], usize::MAX) {
        Some(f) => f,
        None => {
            return None;
        },
    };
    if pieces.len() < 4 {
        return None;
    }
    assert(views[3] == pieces@[3]@);
    let code = match parse_unsigned_chars(&pieces[3], 255) {
        Some(c) => c,
        None => {
            return None;
        },
    };
    let position = int_to_position(code as u8);
    Some((background, foreground, position))
}

/// Like `parse_file_name`, for any name: an error where a number in the name does
/// not parse.
pub fn try_parse_file_name(file_name: &String) -> (r: Result<Option<NameKey>, FileNameError>)
    ensures
        r is Err <==> !file_name_readable(file_name@),
        r matches Ok(k) ==> k == spec_parse_file_name(file_name@),
{
    let pieces = split_at_alphabetic(file_name.as_str());
    let ghost views = pieces@.map_values(|v: Vec<char>| v@);
    let n = pieces.len();
    if n >= 2 {
        assert(views[1] == pieces@[1]@);
        if parse_unsigned_chars(&pieces[1], usize::MAX).is_none() {
            return Err(FileNameError::MalformedNumber);
        }
        if n >= 3 {
            assert(views[2] == pieces@[2]@);
            if parse_unsigned_chars(&pieces[2], usize::MAX).is_none() {
                return Err(FileNameError::MalformedNumber);
            }
            if n >= 4 {
                assert(views[3] == pieces@[3]@);
                if parse_unsigned_chars(&pieces[3], 255).is_none() {
                    return Err(FileNameError::MalformedNumber);
                }
            }
        }
    }
    Ok(parse_file_name(file_name))
}

/// The name under which a composite of background `b` and foreground `f` (their file
/// stems) placed at `p` is saved: `b<b>f<f>p<code of p>`.
pub open spec fn spec_result_name(b: Seq<char>, f: Seq<char>, p: ROIPosition) -> Seq<char> {
    seq!['b'] + b + seq!['f'] + f + seq!['p'] + seq![digit_char(spec_position_code(p) as nat)]
}

/// The file name of a composite (without extension), from the stems of the
/// background and foreground files and the position used.
pub fn result_name(b_stem: &str, f_stem: &str, position: &ROIPosition) -> (name: String)
    ensures
        name@ == spec_result_name(b_stem@, f_stem@, *position),
{
    proof {
        reveal_strlit("b");
        reveal_strlit("f");
        reveal_strlit("p");
    }
    let code = position_to_int(position);
    let mut name = String::new();
    name.append("b");
    name.append(b_stem);
    name.append("f");
    name.append(f_stem);
    name.append("p");
    name.append(digit_text(code as usize));
    assert(name@ =~= spec_result_name(b_stem@, f_stem@, *position));
    name
}

proof fn lemma_split_push_alphabetic(s: Seq<char>, c: char)
    requires
        is_alphabetic(c),
    ensures
        split_alphabetic(s.push(c)) == split_alphabetic(s).push(Seq::<char>::empty()),
{
    assert(s.push(c).drop_last() =~= s);
}

/// Reading the name of a composite gives back its background, foreground and
/// position, whenever both stems are numbers that `str::parse` reads as `usize`.
pub proof fn lemma_result_name_round_trip(b: Seq<char>, f: Seq<char>, p: ROIPosition)
    requires
        parse_unsigned(b, usize::MAX as nat) is Some,
        parse_unsigned(f, usize::MAX as nat) is Some,
    ensures
        file_name_readable(spec_result_name(b, f, p)),
        spec_parse_file_name(spec_result_name(b, f, p)) == Some(
            (
                parse_unsigned(b, usize::MAX as nat).unwrap() as usize,
                parse_unsigned(f, usize::MAX as nat).unwrap() as usize,
                p,
            ),
        ),
{
    let e = Seq::<char>::empty();
    let d = digit_char(spec_position_code(p) as nat);
    lemma_parsable_not_alphabetic(b, usize::MAX as nat);
    lemma_parsable_not_alphabetic(f, usize::MAX as nat);
    assert(is_alphabetic('b'));
    assert(is_alphabetic('f'));
    assert(is_alphabetic('p'));
    assert(!is_alphabetic(d));
    // "b"
    let s1 = seq!['b'];
    assert(s1 =~= e.push('b'));
    lemma_split_push_alphabetic(e, 'b');
    assert(split_alphabetic(s1) =~= seq![e, e]);
    // "b" + b
    let s2 = s1 + b;
    lemma_split_append_plain(s1, b);
    assert(split_alphabetic(s2) =~= seq![e, b]);
    // + "f"
    let s3 = s2 + seq!['f'];
    assert(s3 =~= s2.push('f'));
    lemma_split_push_alphabetic(s2, 'f');
    assert(split_alphabetic(s3) =~= seq![e, b, e]);
    // + f
    let s4 = s3 + f;
    lemma_split_append_plain(s3, f);
    assert(split_alphabetic(s4) =~= seq![e, b, f]);
    // + "p"
    let s5 = s4 + seq!['p'];
    assert(s5 =~= s4.push('p'));
    lemma_split_push_alphabetic(s4, 'p');
    assert(split_alphabetic(s5) =~= seq![e, b, f, e]);
    // + digit
    let s6 = s5 + seq![d];
    assert forall|i: int| 0 <= i < seq![d].len() implies !is_alphabetic(#[trigger] seq![d][i]) by {
    }
    lemma_split_append_plain(s5, seq![d]);
    assert(split_alphabetic(s6) =~= seq![e, b, f, seq![d]]);
    assert(s6 == spec_result_name(b, f, p));
    // the position code reads back
    let ds = seq![d];
    assert(unsigned_digits(ds) == ds);
    assert(ds.drop_last() =~= e);
    assert(digits_value(e) == 0);
    assert(ds.last() == d);
    assert(d as u32 == (spec_position_code(p) as u32) + 48);
    assert(digit_value(d) == spec_position_code(p) as nat);
    assert(digits_value(ds) == spec_position_code(p) as nat);
    assert(all_digits(ds));
    assert(parse_unsigned(ds, u8::MAX as nat) == Some(spec_position_code(p) as nat));
    lemma_code_round_trip(p);
}


/// A composite of the backgrounds and foregrounds that preprocessing numbered `b` and
/// `f` is read back as `(b, f, p)`.
pub proof fn lemma_numbered_result_round_trip(b: usize, f: usize, p: ROIPosition)
    ensures
        file_name_readable(spec_result_name(decimal_digits(b as nat), decimal_digits(f as nat), p)),
        spec_parse_file_name(spec_result_name(decimal_digits(b as nat), decimal_digits(f as nat), p))
            == Some((b, f, p)),
{
    lemma_decimal_round_trip(b as nat, usize::MAX as nat);
    lemma_decimal_round_trip(f as nat, usize::MAX as nat);
    lemma_result_name_round_trip(decimal_digits(b as nat), decimal_digits(f as nat), p);
}

} // verus!
