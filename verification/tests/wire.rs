use lexer_tokens::token::CATEGORY_COUNT;
use lexer_tokens::wire::{wire_key, WIRE_LEN};
use lexer_tokens::{Token, TokenType, TokenizationError};
use packed_struct::types::bits::Bits;
use packed_struct::types::{Integer, MsbInteger};
use packed_struct::PackedStruct;

fn catalog() -> Vec<TokenType> {
    vec![
        TokenType::Function,
        TokenType::If,
        TokenType::OpenParen,
        TokenType::CloseParen,
        TokenType::OpenCurly,
        TokenType::CloseCurly,
        TokenType::OpenAngle,
        TokenType::CloseAngle,
        TokenType::DoubleQuote,
        TokenType::SingleQuote,
        TokenType::Backtick,
        TokenType::TypeSeperator,
        TokenType::Comma,
        TokenType::Plus,
        TokenType::Minus,
        TokenType::Star,
        TokenType::Slash,
        TokenType::Space,
        TokenType::Newline,
        TokenType::Unknown,
    ]
}

fn offsets() -> Vec<u32> {
    vec![
        0,
        1,
        2,
        127,
        128,
        255,
        256,
        257,
        0xffff,
        0x1_0000,
        0x1_0001,
        0xff_ffff,
        0x100_0000,
        0x0102_0304,
        0x7fff_ffff,
        0x8000_0000,
        0xdead_beef,
        u32::MAX - 1,
        u32::MAX,
    ]
}

#[test]
fn ordinals_follow_the_catalog() {
    assert_eq!(catalog().len(), CATEGORY_COUNT as usize);
    for (i, ty) in catalog().into_iter().enumerate() {
        assert_eq!(ty.to_ordinal(), i as u8);
        assert_eq!(TokenType::from_ordinal(i as u8), Some(ty));
    }
    assert_eq!(TokenType::Function.to_ordinal(), 0);
    assert_eq!(TokenType::OpenCurly.to_ordinal(), 4);
    assert_eq!(TokenType::OpenAngle.to_ordinal(), 6);
    assert_eq!(TokenType::Unknown.to_ordinal(), 19);
}

#[test]
fn bytes_that_are_no_ordinal() {
    for b in CATEGORY_COUNT..=u8::MAX {
        assert_eq!(TokenType::from_ordinal(b), None);
    }
}

#[test]
fn pack_writes_offset_then_ordinal() {
    assert_eq!(WIRE_LEN, 5);
    assert_eq!(Token { loc: 0, ty: TokenType::Function }.pack(), [0, 0, 0, 0, 0]);
    assert_eq!(Token { loc: 3, ty: TokenType::OpenParen }.pack(), [0, 0, 0, 3, 2]);
    assert_eq!(Token { loc: 0x0102_0304, ty: TokenType::If }.pack(), [1, 2, 3, 4, 1]);
    assert_eq!(Token { loc: 0xdead_beef, ty: TokenType::Newline }.pack(), [0xde, 0xad, 0xbe, 0xef, 18]);
    assert_eq!(Token { loc: 256, ty: TokenType::Unknown }.pack(), [0, 0, 1, 0, 19]);
    assert_eq!(Token { loc: u32::MAX, ty: TokenType::Unknown }.pack(), [255, 255, 255, 255, 19]);
}

#[test]
fn pack_agrees_with_packed_struct_on_the_offset() {
    for loc in offsets() {
        let field: Integer<u32, Bits<32>> = loc.into();
        let expected: [u8; 4] = field.as_packed_msb().pack().unwrap();
        let wire = Token { loc, ty: TokenType::Comma }.pack();
        assert_eq!(wire[..4], expected);
        assert_eq!(wire[4], 12);
    }
}

#[test]
fn unpack_agrees_with_packed_struct_on_the_offset() {
    for loc in offsets() {
        let wire = Token { loc, ty: TokenType::Star }.pack();
        let field = [wire[0], wire[1], wire[2], wire[3]];
        let read = MsbInteger::<u32, Bits<32>, Integer<u32, Bits<32>>>::unpack(&field).unwrap();
        assert_eq!(**read, loc);
        assert_eq!(Token::unpack(&wire).map(|t| t.loc), Ok(**read));
    }
}

#[test]
fn unpack_reads_offset_and_category() {
    assert_eq!(Token::unpack(&[0, 0, 0, 0, 0]), Ok(Token { loc: 0, ty: TokenType::Function }));
    assert_eq!(Token::unpack(&[1, 2, 3, 4, 1]), Ok(Token { loc: 0x0102_0304, ty: TokenType::If }));
    assert_eq!(
        Token::unpack(&[255, 255, 255, 255, 19]),
        Ok(Token { loc: u32::MAX, ty: TokenType::Unknown })
    );
    assert_eq!(Token::unpack(&[0, 0, 1, 0, 17]), Ok(Token { loc: 256, ty: TokenType::Space }));
}

#[test]
fn unassigned_ordinal_fails_decode() {
    assert_eq!(Token::unpack(&[0, 0, 0, 0, 255]), Err(TokenizationError::InvalidCategory));
    assert_eq!(Token::unpack(&[1, 2, 3, 4, 255]), Err(TokenizationError::InvalidCategory));
    assert_eq!(Token::unpack(&[0, 0, 0, 0, 20]), Err(TokenizationError::InvalidCategory));
    assert_eq!(Token::unpack(&[0, 0, 0, 0, 128]), Err(TokenizationError::InvalidCategory));
}

#[test]
fn unpack_undoes_pack() {
    for loc in offsets() {
        for ty in catalog() {
            let t = Token { loc, ty };
            assert_eq!(Token::unpack(&t.pack()), Ok(t));
        }
    }
}

#[test]
fn pack_undoes_unpack() {
    for a in [0u8, 1, 0x7f, 0x80, 0xff] {
        for d in [0u8, 1, 0xfe, 0xff] {
            for ordinal in 0..=u8::MAX {
                let wire = [a, 0x5a, a ^ d, d, ordinal];
                match Token::unpack(&wire) {
                    Ok(t) => {
                        assert!(ordinal < CATEGORY_COUNT);
                        assert_eq!(t.pack(), wire);
                    },
                    Err(e) => {
                        assert!(ordinal >= CATEGORY_COUNT);
                        assert_eq!(e, TokenizationError::InvalidCategory);
                    },
                }
            }
        }
    }
}

#[test]
fn wire_forms_sort_as_offsets() {
    let offsets = offsets();
    for &a in &offsets {
        for &b in &offsets {
            for (x, y) in [
                (TokenType::Function, TokenType::Function),
                (TokenType::Unknown, TokenType::Function),
                (TokenType::Function, TokenType::Unknown),
            ] {
                let (wa, wb) = (Token { loc: a, ty: x }.pack(), Token { loc: b, ty: y }.pack());
                if a < b {
                    assert!(wa < wb, "{} {}", a, b);
                }
                if a > b {
                    assert!(wa > wb, "{} {}", a, b);
                }
            }
        }
    }
    assert!(
        Token { loc: 255, ty: TokenType::Unknown }.pack()
            < Token { loc: 256, ty: TokenType::Function }.pack()
    );
}

#[test]
fn wire_key_is_the_number_the_bytes_spell() {
    assert_eq!(wire_key(&[0, 0, 0, 0, 0]), 0);
    assert_eq!(wire_key(&[0, 0, 0, 0, 19]), 19);
    assert_eq!(wire_key(&[0, 0, 0, 1, 0]), 256);
    assert_eq!(wire_key(&[1, 2, 3, 4, 5]), 0x01_0203_0405);
    assert_eq!(wire_key(&[255, 255, 255, 255, 255]), 0xff_ffff_ffff);
    for loc in offsets() {
        for ty in catalog() {
            let t = Token { loc, ty };
            assert_eq!(wire_key(&t.pack()), loc as u64 * 256 + ty.to_ordinal() as u64);
        }
    }
}

#[test]
fn token_key_counts_the_offset_first() {
    assert_eq!(Token { loc: 0, ty: TokenType::Function }.key(), 0);
    assert_eq!(Token { loc: 0, ty: TokenType::Unknown }.key(), 19);
    assert_eq!(Token { loc: 1, ty: TokenType::Function }.key(), 256);
    assert_eq!(Token { loc: 3, ty: TokenType::OpenParen }.key(), 770);
    assert_eq!(Token { loc: u32::MAX, ty: TokenType::Unknown }.key(), 0xff_ffff_ff13);
    for loc in offsets() {
        for ty in catalog() {
            let t = Token { loc, ty };
            assert_eq!(t.key(), wire_key(&t.pack()));
        }
    }
}

#[test]
fn wire_key_orders_as_the_bytes_do() {
    let wires: Vec<[u8; 5]> = vec![
        [0, 0, 0, 0, 0],
        [0, 0, 0, 0, 1],
        [0, 0, 0, 1, 0],
        [0, 0, 2, 0, 0],
        [0, 0, 2, 0, 255],
        [0, 3, 0, 0, 0],
        [4, 0, 0, 0, 0],
        [4, 0, 0, 0, 1],
        [255, 255, 255, 255, 255],
    ];
    for a in &wires {
        for b in &wires {
            assert_eq!(a < b, wire_key(a) < wire_key(b));
            assert_eq!(a == b, wire_key(a) == wire_key(b));
        }
    }
}
