//! Counting coins, and the commands that block the coin acceptor.

use vstd::prelude::*;

use crate::text;

verus! {

/// Output lines of the coin acceptor.
pub const LINES: usize = 6;

/// A coin, told by its code on the output lines.
///
/// The code is a bit mask over the six lines, not a line number: a coin may
/// light several lines at once, so codes overlap.
#[derive(Debug, Clone, Copy, PartialEq, Eq)]
pub struct Coin {
    /// Code on the lines. Bit 0 is line 1.
    pub mask: u8,
    /// Value in the smallest unit of the currency.
    pub value: u32,
    /// What to call it in the log.
    pub name: &'static str,
}

/// The first coin of a list with exactly this code.
pub open spec fn first_coin(coins: Seq<Coin>, mask: u8) -> Option<Coin>
    decreases coins.len(),
{
    if coins.len() == 0 {
        None
    } else if coins[0].mask == mask {
        Some(coins[0])
    } else {
        first_coin(coins.skip(1), mask)
    }
}

/// Finds a coin by the code read from the lines.
///
/// The whole code has to match: with overlapping codes, "contains the bits"
/// would take one coin for another.
pub fn lookup(coins: &[Coin], mask: u8) -> (r: Option<&Coin>)
    ensures
        match r {
            Some(coin) => first_coin(coins@, mask) == Some(*coin),
            None => first_coin(coins@, mask) is None,
        },
{
    let mut i: usize = 0;
    proof {
        assert(coins@.skip(0) =~= coins@);
    }
    while i < coins.len()
        invariant
            i <= coins@.len(),
            first_coin(coins@, mask) == first_coin(coins@.skip(i as int), mask),
        decreases coins@.len() - i,
    {
        if coins[i].mask == mask {
            return Some(&coins[i]);
        }
        proof {
            assert(coins@.skip(i as int).skip(1) =~= coins@.skip(i + 1));
        }
        i = i + 1;
    }
    None
}

/// What is found has the whole code, and nothing is found only when no coin of
/// the list has it.
pub proof fn law_lookup_matches_the_whole_code(coins: Seq<Coin>, mask: u8)
    ensures
        match first_coin(coins, mask) {
            Some(coin) => coins.contains(coin) && coin.mask == mask,
            None => forall|i: int| 0 <= i < coins.len() ==> (#[trigger] coins[i]).mask != mask,
        },
    decreases coins.len(),
{
    if coins.len() > 0 && coins[0].mask != mask {
        let rest = coins.skip(1);
        law_lookup_matches_the_whole_code(rest, mask);
        match first_coin(rest, mask) {
            Some(coin) => {
                let i = choose|i: int| 0 <= i < rest.len() && rest[i] == coin;
                assert(coins[i + 1] == coin);
            },
            None => {
                assert forall|i: int| 0 <= i < coins.len() implies (
                #[trigger] coins[i]).mask != mask by {
                    if i > 0 {
                        assert(rest[i - 1] == coins[i]);
                    }
                }
            },
        }
    }
}

/// Money put in so far, in the smallest unit of the currency.
#[derive(Debug, Clone, Copy, PartialEq, Eq, Structural)]
pub struct Credit {
    pub total: u32,
}

impl Default for Credit {
    fn default() -> (r: Self)
        ensures
            r.total == 0,
    {
        Credit { total: 0 }
    }
}

/// The sum of two amounts, stopped at the largest one that can be counted.
pub open spec fn saturated(a: u32, b: u32) -> u32 {
    if a + b > u32::MAX {
        u32::MAX
    } else {
        (a + b) as u32
    }
}

/// The credit at the moment.
pub fn credit(account: &Credit) -> (r: u32)
    ensures
        r == account.total,
{
    account.total
}

/// Adds a coin to the credit and returns the new sum.
///
/// Stops at the top instead of wrapping round: losing precision on an absurd
/// sum is better than losing the credit.
pub fn add(account: &mut Credit, value: u32) -> (r: u32)
    ensures
        r == saturated(old(account).total, value),
        final(account).total == r,
        old(account).total + value <= 0xFFFF_FFFF ==> r == old(account).total + value,
        old(account).total + value > 0xFFFF_FFFF ==> r == 0xFFFF_FFFF,
{
    account.total = account.total.saturating_add(value);
    account.total
}

/// Credit never shrinks when a coin comes in.
pub proof fn law_credit_never_shrinks(total: u32, value: u32)
    ensures
        saturated(total, value) >= total,
        saturated(total, value) >= value,
        saturated(u32::MAX, value) == u32::MAX,
{
}

/// Whether a mask blocks a line; lines count from zero.
pub open spec fn blocks(mask: u8, line: nat) -> bool {
    line < LINES && mask & (1u8 << (line as u8)) != 0
}

/// Whether the mask blocks a line. Lines count from zero here.
pub fn is_blocked(mask: u8, line: usize) -> (r: bool)
    ensures
        r == blocks(mask, line as nat),
{
    line < LINES && mask & (1u8 << (line as u8)) != 0
}

/// The line that a word of a command names: 1 to 6, as on the acceptor.
pub open spec fn named_line(word: Seq<char>) -> Option<nat> {
    match text::number_up_to(word, LINES as nat) {
        Some(n) => if n >= 1 {
            Some(n)
        } else {
            None
        },
        None => None,
    }
}

/// The mask of a list of line numbers; empty words are skipped. `None` when any
/// other word is not a line number.
pub open spec fn listed_mask(words: Seq<Seq<char>>) -> Option<u8>
    decreases words.len(),
{
    if words.len() == 0 {
        Some(0)
    } else {
        match listed_mask(words.drop_last()) {
            None => None,
            Some(mask) => {
                let word = text::trimmed(words.last());
                if word.len() == 0 {
                    Some(mask)
                } else {
                    match named_line(word) {
                        Some(n) => Some(mask | (1u8 << ((n - 1) as u8))),
                        None => None,
                    }
                }
            },
        }
    }
}

/// The mask that a blocking command asks for.
pub open spec fn block_mask(command: Seq<char>) -> Option<u8> {
    let command = text::trimmed(command);
    if command.len() == 0 || text::same_but_case(command, "none"@) || command == "0"@ {
        Some(0)
    } else if text::same_but_case(command, "all"@) {
        Some(0x3F)
    } else {
        listed_mask(text::pieces(command, seq![',', ' ']))
    }
}

/// Reads a blocking command: a list of line numbers.
///
/// The numbers are the human ones, 1 to 6. A bare bit mask is not taken: "5"
/// would mean two lines as a mask and one as a list.
///
/// | Command | Meaning |
/// |---|---|
/// | `none`, `0`, nothing | block nothing |
/// | `all` | block all six |
/// | `1,3` or `1 3` | block the first and the third |
///
/// `None` when there is anything else: a typo must not leave the machine in a
/// state that nobody expects.
pub fn parse_block_mask(command: &str) -> (r: Option<u8>)
    ensures
        r == block_mask(command@),
{
    let chars = text::chars_of(command);
    let list: &[char] = text::trim(&chars);
    proof {
        reveal_strlit("0");
        assert(list@.len() == 1 && list@[0] == '0' ==> list@ =~= "0"@);
    }
    if list.len() == 0 || text::is_word(list, "none") || (list.len() == 1 && list[0] == '0') {
        return Some(0);
    }
    if text::is_word(list, "all") {
        return Some(0x3F);
    }
    let separators: [char; 2] = [',', ' '];
    assert(separators@ =~= seq![',', ' ']);
    let words = text::split(list, &separators);
    let ghost all = text::pieces(list@, seq![',', ' ']);
    let mut mask: u8 = 0;
    let mut i: usize = 0;
    proof {
        assert(all.take(0) =~= Seq::<Seq<char>>::empty());
    }
    while i < words.len()
        invariant
            i <= words@.len(),
            all == text::pieces(list@, seq![',', ' ']),
            text::bounds_match(list@, words@, all),
            listed_mask(all.take(i as int)) == Some(mask),
            block_mask(command@) == listed_mask(all),
        decreases words@.len() - i,
    {
        proof {
            assert(all.take(i + 1).drop_last() =~= all.take(i as int));
            assert(all.take(i + 1).last() == all[i as int]);
        }
        let word: &[char] = text::trim(&list[words[i].0..words[i].1]);
        if word.len() > 0 {
            match text::parse_number(word, LINES as u32) {
                Some(line) => {
                    if line < 1 {
                        proof {
                            if listed_mask(all) is Some {
                                lemma_listed_prefix(all, i + 1);
                            }
                        }
                        return None;
                    }
                    mask = mask | (1u8 << ((line - 1) as u8));
                },
                None => {
                    proof {
                        if listed_mask(all) is Some {
                            lemma_listed_prefix(all, i + 1);
                        }
                    }
                    return None;
                },
            }
        }
        i = i + 1;
    }
    proof {
        assert(all.take(i as int) =~= all);
    }
    Some(mask)
}

/// A list is only as good as its beginnings.
proof fn lemma_listed_prefix(words: Seq<Seq<char>>, count: int)
    requires
        listed_mask(words) is Some,
        0 <= count <= words.len(),
    ensures
        listed_mask(words.take(count)) is Some,
    decreases words.len() - count,
{
    if count < words.len() {
        lemma_listed_prefix(words, count + 1);
        assert(words.take(count + 1).drop_last() =~= words.take(count));
    } else {
        assert(words.take(count) =~= words);
    }
}

/// A list of line numbers blocks exactly the lines that it names.
pub proof fn law_list_blocks_what_it_names(words: Seq<Seq<char>>, line: nat)
    requires
        listed_mask(words) is Some,
        line < LINES,
    ensures
        listed_mask(words)->0 < 64,
        blocks(listed_mask(words)->0, line) <==> exists|k: int|
            0 <= k < words.len() && named_line(text::trimmed(#[trigger] words[k])) == Some(line + 1),
    decreases words.len(),
{
    if words.len() == 0 {
        let bit = line as u8;
        assert(0u8 & (1u8 << bit) == 0) by (bit_vector);
    } else {
        let before = words.drop_last();
        law_list_blocks_what_it_names(before, line);
        let mask = listed_mask(before)->0;
        let word = text::trimmed(words.last());
        if word.len() > 0 {
            let n = named_line(word)->0;
            let set = (n - 1) as u8;
            let bit = line as u8;
            assert(set < 6 && bit < 6 && mask < 64 ==> (mask | (1u8 << set)) < 64 && (((mask | (1u8
                << set)) & (1u8 << bit) != 0) <==> (mask & (1u8 << bit) != 0 || set == bit)))
                by (bit_vector);
        }
        assert(words[words.len() - 1] == words.last());
        if exists|k: int|
            0 <= k < words.len() && named_line(text::trimmed(#[trigger] words[k])) == Some(line + 1) {
            let k = choose|k: int|
                0 <= k < words.len() && named_line(text::trimmed(#[trigger] words[k])) == Some(
                    line + 1,
                );
            if k < before.len() {
                assert(before[k] == words[k]);
            }
        }
        if exists|k: int|
            0 <= k < before.len() && named_line(text::trimmed(#[trigger] before[k])) == Some(
                line + 1,
            ) {
            let k = choose|k: int|
                0 <= k < before.len() && named_line(text::trimmed(#[trigger] before[k])) == Some(
                    line + 1,
                );
            assert(before[k] == words[k]);
        }
    }
}

/// What a command of the total block asks for.
pub open spec fn total_block(command: Seq<char>) -> Option<bool> {
    let command = text::trimmed(command);
    if text::same_but_case(command, "block"@) {
        Some(true)
    } else if text::same_but_case(command, "accept"@) {
        Some(false)
    } else {
        None
    }
}

/// Reads a command of the total block: `block` or `accept`.
///
/// Not `on` and `off`: "on" may mean that the block is on or that coins are
/// taken.
pub fn parse_total_block(command: &str) -> (r: Option<bool>)
    ensures
        r == total_block(command@),
{
    let chars = text::chars_of(command);
    let command: &[char] = text::trim(&chars);
    if text::is_word(command, "block") {
        Some(true)
    } else if text::is_word(command, "accept") {
        Some(false)
    } else {
        None
    }
}

// ---------------------------------------------------------------------------
// What holds of coins and commands
// ---------------------------------------------------------------------------

/// The credit after coins of these values, put in one after the other.
pub open spec fn credit_after(start: u32, values: Seq<u32>) -> u32
    decreases values.len(),
{
    if values.len() == 0 {
        start
    } else {
        saturated(credit_after(start, values.drop_last()), values.last())
    }
}

/// What coins are worth together.
pub open spec fn worth(values: Seq<u32>) -> int
    decreases values.len(),
{
    if values.len() == 0 {
        0
    } else {
        worth(values.drop_last()) + values.last()
    }
}

/// No money is lost: whatever coins are put in, the credit grows by what they
/// are worth together, until it is as large as a credit can be.
pub proof fn law_no_coin_is_lost(start: u32, values: Seq<u32>)
    ensures
        start + worth(values) <= 0xFFFF_FFFF ==> credit_after(start, values) == start + worth(
            values,
        ),
        start + worth(values) > 0xFFFF_FFFF ==> credit_after(start, values) == 0xFFFF_FFFF,
        worth(values) >= 0,
    decreases values.len(),
{
    if values.len() > 0 {
        law_no_coin_is_lost(start, values.drop_last());
    }
}

/// The first of the coins with a code is the one that is meant.
pub proof fn law_lookup_takes_the_first(coins: Seq<Coin>, mask: u8, place: int)
    requires
        0 <= place < coins.len(),
        coins[place].mask == mask,
        forall|i: int| 0 <= i < place ==> (#[trigger] coins[i]).mask != mask,
    ensures
        first_coin(coins, mask) == Some(coins[place]),
    decreases place,
{
    if place > 0 {
        let rest = coins.skip(1);
        assert(coins[0].mask != mask);
        assert(rest[place - 1] == coins[place]);
        assert forall|i: int| 0 <= i < place - 1 implies (#[trigger] rest[i]).mask != mask by {
            assert(rest[i] == coins[i + 1]);
        }
        law_lookup_takes_the_first(rest, mask, place - 1);
    }
}

/// Line 1 is the lowest bit of a mask, line 6 the sixth; there are no others.
pub proof fn law_lines_are_bits(mask: u8, line: nat)
    ensures
        blocks(mask, 0) <==> mask % 2 == 1,
        blocks(mask, 1) <==> mask / 2 % 2 == 1,
        blocks(mask, 2) <==> mask / 4 % 2 == 1,
        blocks(mask, 3) <==> mask / 8 % 2 == 1,
        blocks(mask, 4) <==> mask / 16 % 2 == 1,
        blocks(mask, 5) <==> mask / 32 % 2 == 1,
        line >= 6 ==> !blocks(mask, line),
{
    assert((mask & (1u8 << 0u8) != 0 <==> mask % 2 == 1) && (mask & (1u8 << 1u8) != 0 <==> mask / 2
        % 2 == 1) && (mask & (1u8 << 2u8) != 0 <==> mask / 4 % 2 == 1) && (mask & (1u8 << 3u8) != 0
        <==> mask / 8 % 2 == 1) && (mask & (1u8 << 4u8) != 0 <==> mask / 16 % 2 == 1) && (mask & (
    1u8 << 5u8) != 0 <==> mask / 32 % 2 == 1)) by (bit_vector);
}

/// A word names a line when it is a number from 1 to 6, and names no other.
pub proof fn law_words_name_lines(plus: bool, leading: nat, n: nat)
    ensures
        named_line(text::written_number(plus, leading, n)) == if 1 <= n <= 6 {
            Some(n)
        } else {
            None::<nat>
        },
{
    text::law_number_is_read(plus, leading, n, 6);
}

/// A word that names a line is a number from 1 to 6.
pub proof fn law_only_numbers_name_lines(word: Seq<char>)
    ensures
        named_line(word) matches Some(n) ==> 1 <= n <= 6 && exists|plus: bool, leading: nat|
            word == #[trigger] text::written_number(plus, leading, n),
{
    text::law_nothing_else_is_a_number(word, 6);
}

/// A list is understood when each of its words names a line or is blank. One
/// word that does neither spoils it.
pub proof fn law_one_bad_word_spoils_a_list(words: Seq<Seq<char>>)
    ensures
        listed_mask(words) is Some <==> forall|k: int|
            0 <= k < words.len() ==> text::trimmed(#[trigger] words[k]).len() == 0 || named_line(
                text::trimmed(words[k]),
            ) is Some,
    decreases words.len(),
{
    if words.len() > 0 {
        let before = words.drop_last();
        law_one_bad_word_spoils_a_list(before);
        assert forall|k: int| 0 <= k < before.len() implies #[trigger] before[k] == words[k] by {}
        assert(words[words.len() - 1] == words.last());
        if forall|k: int|
            0 <= k < words.len() ==> text::trimmed(#[trigger] words[k]).len() == 0 || named_line(
                text::trimmed(words[k]),
            ) is Some {
            assert forall|k: int| 0 <= k < before.len() implies text::trimmed(
                #[trigger] before[k],
            ).len() == 0 || named_line(text::trimmed(before[k])) is Some by {
                assert(before[k] == words[k]);
            }
        }
        if listed_mask(words) is Some {
            assert forall|k: int| 0 <= k < words.len() implies text::trimmed(
                #[trigger] words[k],
            ).len() == 0 || named_line(text::trimmed(words[k])) is Some by {
                if k < before.len() {
                    assert(before[k] == words[k]);
                }
            }
        }
    }
}

/// Numbers of lines, written with a mark between them.
pub open spec fn written_lines(lines: Seq<nat>, mark: char) -> Seq<char>
    decreases lines.len(),
{
    if lines.len() <= 1 {
        text::decimal(lines[0])
    } else {
        written_lines(lines.drop_last(), mark).push(mark) + text::decimal(lines.last())
    }
}

proof fn lemma_one_digit(n: nat)
    requires
        1 <= n <= 6,
    ensures
        text::decimal(n).len() == 1,
        text::is_digit(text::decimal(n)[0]),
        text::trimmed(text::decimal(n)) == text::decimal(n),
        named_line(text::decimal(n)) == Some(n),
{
    text::law_digits(n);
    text::lemma_decimal_is_digits(n);
    let word = text::decimal(n);
    text::law_trimming(Seq::empty(), word, Seq::empty());
    assert(Seq::<char>::empty() + word + Seq::<char>::empty() =~= word);
    law_words_name_lines(false, 0, n);
    assert(text::written_number(false, 0, n) =~= word);
}

proof fn lemma_pieces_of_lines(lines: Seq<nat>, mark: char)
    requires
        lines.len() > 0,
        forall|k: int| 0 <= k < lines.len() ==> 1 <= #[trigger] lines[k] <= 6,
        mark == ',' || mark == ' ',
    ensures
        text::pieces(written_lines(lines, mark), seq![',', ' ']) == Seq::new(
            lines.len(),
            |k: int| text::decimal(lines[k]),
        ),
        written_lines(lines, mark).len() > 0,
        text::is_digit(written_lines(lines, mark)[0]),
        text::is_digit(written_lines(lines, mark).last()),
    decreases lines.len(),
{
    let marks = seq![',', ' '];
    assert(marks[0] == ',' && marks[1] == ' ');
    let last = text::decimal(lines.last());
    assert(1 <= lines[lines.len() - 1] <= 6);
    lemma_one_digit(lines.last());
    text::law_unbroken_text_is_one_piece(last, marks);
    if lines.len() == 1 {
        assert(text::pieces(last, marks) =~= Seq::new(
            lines.len(),
            |k: int| text::decimal(lines[k]),
        ));
    } else {
        let before = lines.drop_last();
        assert forall|k: int| 0 <= k < before.len() implies 1 <= #[trigger] before[k] <= 6 by {
            assert(before[k] == lines[k]);
        }
        lemma_pieces_of_lines(before, mark);
        text::law_separator_parts_a_text(written_lines(before, mark), mark, last, marks);
        assert(text::pieces(written_lines(lines, mark), marks) =~= Seq::new(
            lines.len(),
            |k: int| text::decimal(lines[k]),
        ));
    }
}

/// A list of lines blocks exactly the lines in it, with commas or with spaces
/// between them.
pub proof fn law_list_of_lines_is_understood(lines: Seq<nat>, mark: char, line: nat)
    requires
        lines.len() > 0,
        forall|k: int| 0 <= k < lines.len() ==> 1 <= #[trigger] lines[k] <= 6,
        mark == ',' || mark == ' ',
        line < 6,
    ensures
        block_mask(written_lines(lines, mark)) is Some,
        blocks(block_mask(written_lines(lines, mark))->0, line) <==> lines.contains(line + 1),
{
    let command = written_lines(lines, mark);
    lemma_pieces_of_lines(lines, mark);
    text::law_trimming(Seq::empty(), command, Seq::empty());
    assert(Seq::<char>::empty() + command + Seq::<char>::empty() =~= command);
    let words = text::pieces(command, seq![',', ' ']);
    reveal_strlit("none");
    reveal_strlit("all");
    reveal_strlit("0");
    text::law_case_does_not_matter(command, "none"@);
    text::law_case_does_not_matter(command, "all"@);
    assert(!text::same_letter(command[0], "none"@[0]));
    assert(!text::same_letter(command[0], "all"@[0]));
    assert(command != "0"@) by {
        assert(1 <= lines[0] <= 6);
        if lines.len() == 1 {
            text::law_digits(0);
            assert(command == text::decimal(lines[0]));
            text::law_number_is_read(false, 0, lines[0], 6);
            text::law_number_is_read(false, 0, 0, 6);
            assert(text::written_number(false, 0, lines[0]) =~= command);
            assert(text::written_number(false, 0, 0) =~= "0"@);
        } else {
            assert(command.len() >= 2) by {
                assert(1 <= lines[lines.len() - 1] <= 6);
                lemma_one_digit(lines.last());
            }
        }
    }
    assert forall|k: int| 0 <= k < words.len() implies text::trimmed(#[trigger] words[k]).len() == 0
        || named_line(text::trimmed(words[k])) is Some by {
        lemma_one_digit(lines[k]);
    }
    law_one_bad_word_spoils_a_list(words);
    law_list_blocks_what_it_names(words, line);
    if lines.contains(line + 1) {
        let k = choose|k: int| 0 <= k < lines.len() && lines[k] == line + 1;
        lemma_one_digit(lines[k]);
        assert(named_line(text::trimmed(words[k])) == Some(line + 1));
    }
    if blocks(listed_mask(words)->0, line) {
        let k = choose|k: int|
            0 <= k < words.len() && named_line(text::trimmed(#[trigger] words[k])) == Some(
                line + 1,
            );
        lemma_one_digit(lines[k]);
        assert(lines[k] == line + 1);
    }
}

/// Nothing, `none` in any case and `0` block no line, `all` in any case blocks
/// all six, with any white space around them.
pub proof fn law_words_for_none_and_all(front: Seq<char>, word: Seq<char>, back: Seq<char>)
    requires
        text::is_blank(front),
        text::is_blank(back),
    ensures
        word.len() == 0 ==> block_mask(front + word + back) == Some(0u8),
        word == seq!['0'] ==> block_mask(front + word + back) == Some(0u8),
        word.len() == 4 && text::same_letter(word[0], 'n') && text::same_letter(word[1], 'o')
            && text::same_letter(word[2], 'n') && text::same_letter(word[3], 'e') ==> block_mask(
            front + word + back,
        ) == Some(0u8),
        word.len() == 3 && text::same_letter(word[0], 'a') && text::same_letter(word[1], 'l')
            && text::same_letter(word[2], 'l') ==> block_mask(front + word + back) == Some(63u8),
{
    reveal_strlit("none");
    reveal_strlit("all");
    reveal_strlit("0");
    assert("none"@ =~= seq!['n', 'o', 'n', 'e']);
    assert("all"@ =~= seq!['a', 'l', 'l']);
    assert("0"@ =~= seq!['0']);
    if word.len() == 0 || !text::is_white_space(word[0]) && !text::is_white_space(word.last()) {
        text::law_trimming(front, word, back);
        text::law_case_does_not_matter(word, "none"@);
        text::law_case_does_not_matter(word, "all"@);
        text::law_case_does_not_matter(seq!['0'], "all"@);
    }
}

/// Any other command is read word by word, with commas and spaces between the
/// words: it is understood when each word names a line or is blank, and then
/// blocks exactly the lines that are named.
pub proof fn law_commands_are_read_word_by_word(
    front: Seq<char>,
    core: Seq<char>,
    back: Seq<char>,
    line: nat,
)
    requires
        text::is_blank(front),
        text::is_blank(back),
        core.len() > 0,
        !text::is_white_space(core[0]),
        !text::is_white_space(core.last()),
        !text::same_but_case(core, seq!['n', 'o', 'n', 'e']),
        !text::same_but_case(core, seq!['a', 'l', 'l']),
        core != seq!['0'],
        line < 6,
    ensures
        ({
            let words = text::pieces(core, seq![',', ' ']);
            let mask = block_mask(front + core + back);
            &&& mask is Some <==> forall|k: int|
                0 <= k < words.len() ==> text::trimmed(#[trigger] words[k]).len() == 0
                    || named_line(text::trimmed(words[k])) is Some
            &&& mask is Some ==> (blocks(mask->0, line) <==> exists|k: int|
                0 <= k < words.len() && named_line(text::trimmed(#[trigger] words[k])) == Some(
                    line + 1,
                ))
        }),
{
    reveal_strlit("none");
    reveal_strlit("all");
    reveal_strlit("0");
    assert("none"@ =~= seq!['n', 'o', 'n', 'e']);
    assert("all"@ =~= seq!['a', 'l', 'l']);
    assert("0"@ =~= seq!['0']);
    text::law_trimming(front, core, back);
    let words = text::pieces(core, seq![',', ' ']);
    law_one_bad_word_spoils_a_list(words);
    if listed_mask(words) is Some {
        law_list_blocks_what_it_names(words, line);
    }
}

/// `block` in any case closes the acceptor and `accept` in any case opens it,
/// with any white space around them. Nothing else is understood.
pub proof fn law_words_for_the_total_block(front: Seq<char>, word: Seq<char>, back: Seq<char>)
    requires
        text::is_blank(front),
        text::is_blank(back),
        word.len() > 0 ==> !text::is_white_space(word[0]) && !text::is_white_space(word.last()),
    ensures
        total_block(front + word + back) == Some(true) <==> word.len() == 5 && text::same_letter(
            word[0],
            'b',
        ) && text::same_letter(word[1], 'l') && text::same_letter(word[2], 'o')
            && text::same_letter(word[3], 'c') && text::same_letter(word[4], 'k'),
        total_block(front + word + back) == Some(false) <==> word.len() == 6 && text::same_letter(
            word[0],
            'a',
        ) && text::same_letter(word[1], 'c') && text::same_letter(word[2], 'c')
            && text::same_letter(word[3], 'e') && text::same_letter(word[4], 'p')
            && text::same_letter(word[5], 't'),
{
    reveal_strlit("block");
    reveal_strlit("accept");
    assert("block"@ =~= seq!['b', 'l', 'o', 'c', 'k']);
    assert("accept"@ =~= seq!['a', 'c', 'c', 'e', 'p', 't']);
    text::law_trimming(front, word, back);
    text::law_case_does_not_matter(word, "block"@);
    text::law_case_does_not_matter(word, "accept"@);
    if word.len() == 5 {
        assert("block"@[0] == 'b' && "block"@[1] == 'l' && "block"@[2] == 'o' && "block"@[3] == 'c'
            && "block"@[4] == 'k');
    }
}

} // verus!
