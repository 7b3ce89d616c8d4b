//! The text in which a book is shown: one section per side, one line per
//! level, by ascending price.

use vstd::prelude::*;

use crate::book::{listing, BookState, OrderBook, PriceLevel};
use crate::decimal::{ascii_bytes, plain_text, two_place_text};
use crate::models::OrderType;

verus! {

/// The byte that ends a line.
pub const NEWLINE: u8 = 0x0a;

/// The name under which a side is shown.
pub open spec fn side_name(side: OrderType) -> Seq<char> {
    match side {
        OrderType::Buy => "Bids"@,
        OrderType::Sell => "Offers"@,
    }
}

/// The line of one level: the price with two fractional digits, a colon
/// and a blank, the quantity in its shortest form.
pub open spec fn level_line(level: PriceLevel) -> Seq<u8> {
    two_place_text(level.price.units as nat) + ascii_bytes(": "@) + plain_text(
        level.quantity.units as nat,
    ) + seq![NEWLINE]
}

/// The lines of a run of levels, in order.
pub open spec fn level_lines(levels: Seq<PriceLevel>) -> Seq<u8>
    decreases levels.len(),
{
    if levels.len() == 0 {
        Seq::empty()
    } else {
        level_lines(levels.drop_last()) + level_line(levels.last())
    }
}

/// The line that opens a section.
pub open spec fn opening_line(side: OrderType) -> Seq<u8> {
    ascii_bytes("===== "@) + ascii_bytes(side_name(side)) + ascii_bytes(" ====="@) + seq![NEWLINE]
}

/// The line that closes a section.
pub open spec fn closing_line(side: OrderType) -> Seq<u8> {
    ascii_bytes("===== End "@) + ascii_bytes(side_name(side)) + ascii_bytes(" ====="@)
        + seq![NEWLINE]
}

/// The section of one side.
pub open spec fn section(side: OrderType, levels: Seq<PriceLevel>) -> Seq<u8> {
    opening_line(side) + level_lines(levels) + closing_line(side)
}

fn push_text(out: &mut Vec<u8>, text: &str)
    requires
        vstd::string::is_ascii(text),
    ensures
        final(out)@ == old(out)@ + ascii_bytes(text@),
{
    proof {
        vstd::string::is_ascii_spec_bytes(text);
    }
    let bytes = text.as_bytes();
    proof {
        assert(bytes@ =~= ascii_bytes(text@));
    }
    out.extend_from_slice(bytes);
}

fn name_of(side: OrderType) -> (name: &'static str)
    ensures
        name@ == side_name(side),
        vstd::string::is_ascii(name),
{
    proof {
        reveal_strlit("Bids");
        reveal_strlit("Offers");
    }
    match side {
        OrderType::Buy => "Bids",
        OrderType::Sell => "Offers",
    }
}

/// Writes the section of one side to the end of `out`: an opening line
/// with the side's name, one line for each level in the order given, and a
/// closing line.
pub fn write_section(out: &mut Vec<u8>, side: OrderType, levels: &Vec<PriceLevel>)
    ensures
        final(out)@ == old(out)@ + section(side, levels@),
{
    proof {
        reveal_strlit("===== ");
        reveal_strlit("===== End ");
        reveal_strlit(" =====");
        reveal_strlit(": ");
    }
    let name = name_of(side);
    push_text(out, "===== ");
    push_text(out, name);
    push_text(out, " =====");
    out.push(NEWLINE);
    assert(out@ =~= old(out)@ + opening_line(side));
    let n: usize = levels.len();
    let mut i: usize = 0;
    while i < n
        invariant
            n == levels@.len(),
            i <= n,
            vstd::string::is_ascii(": "),
            out@ == old(out)@ + opening_line(side) + level_lines(levels@.take(i as int)),
        decreases n - i,
    {
        let ghost before = out@;
        let level = levels[i];
        level.price.write_two_places(out);
        push_text(out, ": ");
        level.quantity.write_plain(out);
        out.push(NEWLINE);
        proof {
            assert(levels@.take(i + 1).drop_last() =~= levels@.take(i as int));
            assert(out@ =~= before + level_line(level));
            assert(out@ =~= old(out)@ + opening_line(side) + level_lines(levels@.take(i + 1)));
        }
        i += 1;
    }
    proof {
        assert(levels@.take(n as int) =~= levels@);
    }
    let ghost body = out@;
    push_text(out, "===== End ");
    push_text(out, name);
    push_text(out, " =====");
    out.push(NEWLINE);
    proof {
        assert(out@ =~= body + closing_line(side));
        assert(out@ =~= old(out)@ + section(side, levels@));
    }
}

/// The section of one side as bytes.
pub fn render_section(side: OrderType, levels: &Vec<PriceLevel>) -> (text: Vec<u8>)
    ensures
        text@ == section(side, levels@),
{
    let mut text: Vec<u8> = Vec::new();
    write_section(&mut text, side, levels);
    text
}

/// The text of a whole book: the section of the bids, then that of the
/// offers.
pub open spec fn book_text(book: BookState) -> Seq<u8> {
    section(OrderType::Buy, listing(book.bids)) + section(OrderType::Sell, listing(book.offers))
}

/// Writes both sides of a book, bids first.
pub fn render_book(book: &OrderBook) -> (text: Vec<u8>)
    ensures
        text@ == book_text(book@),
{
    let mut text: Vec<u8> = Vec::new();
    let bids = book.query(OrderType::Buy);
    write_section(&mut text, OrderType::Buy, &bids);
    let offers = book.query(OrderType::Sell);
    write_section(&mut text, OrderType::Sell, &offers);
    text
}

} // verus!
