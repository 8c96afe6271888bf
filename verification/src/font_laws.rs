//! What the pictures of the font look like.
use vstd::prelude::*;

#[allow(unused_imports)]
use crate::font::{glyph_rows, row_has_ink};

verus! {

/// The picture of a character, row by row, with `#` for ink.
pub open spec fn look(character: char) -> Option<Seq<Seq<char>>> {
    match character {
        '0' => Some(
            seq![
                ".###."@,
                "#...#"@,
                "#..##"@,
                "#.#.#"@,
                "##..#"@,
                "#...#"@,
                ".###."@,
            ],
        ),
        '1' => Some(
            seq![
                "..#.."@,
                ".##.."@,
                "..#.."@,
                "..#.."@,
                "..#.."@,
                "..#.."@,
                ".###."@,
            ],
        ),
        '2' => Some(
            seq![
                ".###."@,
                "#...#"@,
                "....#"@,
                "...#."@,
                "..#.."@,
                ".#..."@,
                "#####"@,
            ],
        ),
        '3' => Some(
            seq![
                "####."@,
                "....#"@,
                "....#"@,
                ".###."@,
                "....#"@,
                "....#"@,
                "####."@,
            ],
        ),
        '4' => Some(
            seq![
                "...#."@,
                "..##."@,
                ".#.#."@,
                "#..#."@,
                "#####"@,
                "...#."@,
                "...#."@,
            ],
        ),
        '5' => Some(
            seq![
                "#####"@,
                "#...."@,
                "#...."@,
                "####."@,
                "....#"@,
                "....#"@,
                "####."@,
            ],
        ),
        '6' => Some(
            seq![
                "..##."@,
                ".#..."@,
                "#...."@,
                "####."@,
                "#...#"@,
                "#...#"@,
                ".###."@,
            ],
        ),
        '7' => Some(
            seq![
                "#####"@,
                "....#"@,
                "...#."@,
                "..#.."@,
                ".#..."@,
                ".#..."@,
                ".#..."@,
            ],
        ),
        '8' => Some(
            seq![
                ".###."@,
                "#...#"@,
                "#...#"@,
                ".###."@,
                "#...#"@,
                "#...#"@,
                ".###."@,
            ],
        ),
        '9' => Some(
            seq![
                ".###."@,
                "#...#"@,
                "#...#"@,
                ".####"@,
                "....#"@,
                "...#."@,
                "###.."@,
            ],
        ),
        ':' => Some(
            seq![
                "....."@,
                "..#.."@,
                "..#.."@,
                "....."@,
                "..#.."@,
                "..#.."@,
                "....."@,
            ],
        ),
        'A' => Some(
            seq![
                ".###."@,
                "#...#"@,
                "#...#"@,
                "#####"@,
                "#...#"@,
                "#...#"@,
                "#...#"@,
            ],
        ),
        'C' => Some(
            seq![
                ".###."@,
                "#...#"@,
                "#...."@,
                "#...."@,
                "#...."@,
                "#...#"@,
                ".###."@,
            ],
        ),
        'D' => Some(
            seq![
                "####."@,
                "#...#"@,
                "#...#"@,
                "#...#"@,
                "#...#"@,
                "#...#"@,
                "####."@,
            ],
        ),
        'E' => Some(
            seq![
                "#####"@,
                "#...."@,
                "#...."@,
                "####."@,
                "#...."@,
                "#...."@,
                "#####"@,
            ],
        ),
        'F' => Some(
            seq![
                "#####"@,
                "#...."@,
                "#...."@,
                "####."@,
                "#...."@,
                "#...."@,
                "#...."@,
            ],
        ),
        'G' => Some(
            seq![
                ".###."@,
                "#...#"@,
                "#...."@,
                "#.###"@,
                "#...#"@,
                "#...#"@,
                ".###."@,
            ],
        ),
        'I' => Some(
            seq![
                "#####"@,
                "..#.."@,
                "..#.."@,
                "..#.."@,
                "..#.."@,
                "..#.."@,
                "#####"@,
            ],
        ),
        'N' => Some(
            seq![
                "#...#"@,
                "##..#"@,
                "#.#.#"@,
                "#..##"@,
                "#...#"@,
                "#...#"@,
                "#...#"@,
            ],
        ),
        'O' => Some(
            seq![
                ".###."@,
                "#...#"@,
                "#...#"@,
                "#...#"@,
                "#...#"@,
                "#...#"@,
                ".###."@,
            ],
        ),
        'P' => Some(
            seq![
                "####."@,
                "#...#"@,
                "#...#"@,
                "####."@,
                "#...."@,
                "#...."@,
                "#...."@,
            ],
        ),
        'R' => Some(
            seq![
                "####."@,
                "#...#"@,
                "#...#"@,
                "####."@,
                "#.#.."@,
                "#..#."@,
                "#...#"@,
            ],
        ),
        'S' => Some(
            seq![
                ".####"@,
                "#...."@,
                "#...."@,
                ".###."@,
                "....#"@,
                "....#"@,
                "####."@,
            ],
        ),
        'T' => Some(
            seq![
                "#####"@,
                "..#.."@,
                "..#.."@,
                "..#.."@,
                "..#.."@,
                "..#.."@,
                "..#.."@,
            ],
        ),
        'W' => Some(
            seq![
                "#...#"@,
                "#...#"@,
                "#...#"@,
                "#.#.#"@,
                "#.#.#"@,
                "##.##"@,
                "#...#"@,
            ],
        ),
        'Y' => Some(
            seq![
                "#...#"@,
                "#...#"@,
                ".#.#."@,
                "..#.."@,
                "..#.."@,
                "..#.."@,
                "..#.."@,
            ],
        ),
        ' ' => Some(
            seq![
                "....."@,
                "....."@,
                "....."@,
                "....."@,
                "....."@,
                "....."@,
                "....."@,
            ],
        ),
        _ => None,
    }
}

/// The bits of a row, from the left to the right.
proof fn lemma_bits(bits: u8)
    requires
        bits < 32,
    ensures
        row_has_ink(bits, 0) == (bits / 16 == 1),
        row_has_ink(bits, 1) == ((bits / 8) % 2 == 1),
        row_has_ink(bits, 2) == ((bits / 4) % 2 == 1),
        row_has_ink(bits, 3) == ((bits / 2) % 2 == 1),
        row_has_ink(bits, 4) == (bits % 2 == 1),
{
    assert((bits & (1u8 << 4u8) != 0) == (bits / 16 == 1)) by (bit_vector)
        requires
            bits < 32,
    ;
    assert((bits & (1u8 << 3u8) != 0) == ((bits / 8) % 2 == 1)) by (bit_vector);
    assert((bits & (1u8 << 2u8) != 0) == ((bits / 4) % 2 == 1)) by (bit_vector);
    assert((bits & (1u8 << 1u8) != 0) == ((bits / 2) % 2 == 1)) by (bit_vector);
    assert((bits & (1u8 << 0u8) != 0) == (bits % 2 == 1)) by (bit_vector);
}

/// Whether a row of a picture looks like this.
pub open spec fn row_looks(bits: u8, row: Seq<char>) -> bool {
    row.len() == 5 && forall|column: int|
        0 <= column < 5 ==> row_has_ink(bits, column) == (#[trigger] row[column] == '#')
}

/// What the rows that occur look like.
proof fn lemma_rows()
    ensures
        row_looks(0b01110u8, ".###."@),
        row_looks(0b10001u8, "#...#"@),
        row_looks(0b10011u8, "#..##"@),
        row_looks(0b10101u8, "#.#.#"@),
        row_looks(0b11001u8, "##..#"@),
        row_looks(0b00100u8, "..#.."@),
        row_looks(0b01100u8, ".##.."@),
        row_looks(0b00001u8, "....#"@),
        row_looks(0b00010u8, "...#."@),
        row_looks(0b01000u8, ".#..."@),
        row_looks(0b11111u8, "#####"@),
        row_looks(0b11110u8, "####."@),
        row_looks(0b00110u8, "..##."@),
        row_looks(0b01010u8, ".#.#."@),
        row_looks(0b10010u8, "#..#."@),
        row_looks(0b10000u8, "#...."@),
        row_looks(0b01111u8, ".####"@),
        row_looks(0b11100u8, "###.."@),
        row_looks(0b00000u8, "....."@),
        row_looks(0b10111u8, "#.###"@),
        row_looks(0b10100u8, "#.#.."@),
        row_looks(0b11011u8, "##.##"@),
{
    assert(row_looks(0b01110u8, ".###."@)) by {
        reveal_strlit(".###.");
        lemma_bits(0b01110u8);
    }
    assert(row_looks(0b10001u8, "#...#"@)) by {
        reveal_strlit("#...#");
        lemma_bits(0b10001u8);
    }
    assert(row_looks(0b10011u8, "#..##"@)) by {
        reveal_strlit("#..##");
        lemma_bits(0b10011u8);
    }
    assert(row_looks(0b10101u8, "#.#.#"@)) by {
        reveal_strlit("#.#.#");
        lemma_bits(0b10101u8);
    }
    assert(row_looks(0b11001u8, "##..#"@)) by {
        reveal_strlit("##..#");
        lemma_bits(0b11001u8);
    }
    assert(row_looks(0b00100u8, "..#.."@)) by {
        reveal_strlit("..#..");
        lemma_bits(0b00100u8);
    }
    assert(row_looks(0b01100u8, ".##.."@)) by {
        reveal_strlit(".##..");
        lemma_bits(0b01100u8);
    }
    assert(row_looks(0b00001u8, "....#"@)) by {
        reveal_strlit("....#");
        lemma_bits(0b00001u8);
    }
    assert(row_looks(0b00010u8, "...#."@)) by {
        reveal_strlit("...#.");
        lemma_bits(0b00010u8);
    }
    assert(row_looks(0b01000u8, ".#..."@)) by {
        reveal_strlit(".#...");
        lemma_bits(0b01000u8);
    }
    assert(row_looks(0b11111u8, "#####"@)) by {
        reveal_strlit("#####");
        lemma_bits(0b11111u8);
    }
    assert(row_looks(0b11110u8, "####."@)) by {
        reveal_strlit("####.");
        lemma_bits(0b11110u8);
    }
    assert(row_looks(0b00110u8, "..##."@)) by {
        reveal_strlit("..##.");
        lemma_bits(0b00110u8);
    }
    assert(row_looks(0b01010u8, ".#.#."@)) by {
        reveal_strlit(".#.#.");
        lemma_bits(0b01010u8);
    }
    assert(row_looks(0b10010u8, "#..#."@)) by {
        reveal_strlit("#..#.");
        lemma_bits(0b10010u8);
    }
    assert(row_looks(0b10000u8, "#...."@)) by {
        reveal_strlit("#....");
        lemma_bits(0b10000u8);
    }
    assert(row_looks(0b01111u8, ".####"@)) by {
        reveal_strlit(".####");
        lemma_bits(0b01111u8);
    }
    assert(row_looks(0b11100u8, "###.."@)) by {
        reveal_strlit("###..");
        lemma_bits(0b11100u8);
    }
    assert(row_looks(0b00000u8, "....."@)) by {
        reveal_strlit(".....");
        lemma_bits(0b00000u8);
    }
    assert(row_looks(0b10111u8, "#.###"@)) by {
        reveal_strlit("#.###");
        lemma_bits(0b10111u8);
    }
    assert(row_looks(0b10100u8, "#.#.."@)) by {
        reveal_strlit("#.#..");
        lemma_bits(0b10100u8);
    }
    assert(row_looks(0b11011u8, "##.##"@)) by {
        reveal_strlit("##.##");
        lemma_bits(0b11011u8);
    }
}

/// The font has exactly these characters, and each looks as it should, row by row and
/// column by column.
pub proof fn law_characters_look_right(character: char, row: int)
    requires
        0 <= row < 7,
    ensures
        glyph_rows(character) is Some <==> look(character) is Some,
        glyph_rows(character) matches Some(rows) ==> row_looks(rows[row], look(character)->0[row]),
{
    lemma_rows();
    assert(row == 0 || row == 1 || row == 2 || row == 3 || row == 4 || row == 5 || row == 6);
}

} // verus!
