//! The token record: what the monitor reports for one detected token, how
//! it is written as text, and how that text is read back.

use vstd::prelude::*;
use vstd::string::*;
use crate::decimal::append_supply;
use crate::decimal::convert_wei;
use crate::decimal::decode_supply;
use crate::decimal::is_numeric;
use crate::decimal::lemma_supply_text_numeric;
use crate::decimal::lemma_supply_value_inverts;
use crate::decimal::supply_text;
use crate::decimal::supply_value;
use crate::decimal::UNITS_PER_TOKEN;
use crate::ident::Address;
use crate::ident::Hash256;
use crate::text::append_hex;
use crate::text::chars_of;
use crate::text::decode_hex;
use crate::text::hex_decode;
use crate::text::hex_text;
use crate::text::lemma_hex_decode_inverts;
use crate::uint::uint256_bound;
use crate::uint::Uint256;

verus! {

/// A detected token: the transaction that created its contract, the
/// contract's address, the token's name and its total supply in smallest
/// units, of which 10^18 make one token.
#[derive(Debug, PartialEq, Eq)]
pub struct TokenRecord {
    pub creation_tx_hash: Hash256,
    pub contract_address: Address,
    pub name: String,
    pub supply: Uint256,
}

/// The four values of a token record.
pub struct RecordView {
    pub hash: Seq<u8>,
    pub address: Seq<u8>,
    pub name: Seq<char>,
    pub supply: nat,
}

impl View for TokenRecord {
    type V = RecordView;

    open spec fn view(&self) -> RecordView {
        RecordView {
            hash: self.creation_tx_hash@,
            address: self.contract_address@,
            name: self.name@,
            supply: self.supply@,
        }
    }
}

/// Position of the first hexadecimal digit of the hash in a rendering.
pub const HASH_START: usize = 20;

/// Position behind the last hexadecimal digit of the hash.
pub const HASH_END: usize = 84;

/// Position of the first hexadecimal digit of the address.
pub const ADDRESS_START: usize = 105;

/// Position behind the last hexadecimal digit of the address.
pub const ADDRESS_END: usize = 145;

/// Position of the first character of the token's name.
pub const NAME_START: usize = 158;

/// Length of the label that stands between the name and the supply.
pub const SUPPLY_LABEL_LENGTH: usize = 15;

/// Length of a rendering without the name and the supply.
pub const FRAME_LENGTH: usize = 174;

impl RecordView {
    /// Whether the values are those of some record: the hash has 32 bytes,
    /// the address 20, and the supply fits in 256 bits.
    pub open spec fn wf(self) -> bool {
        &&& self.hash.len() == 32
        &&& self.address.len() == 20
        &&& self.supply < uint256_bound()
    }

    /// The text of the record: four labelled lines, each closed by a line
    /// feed, with the hash and the address in hexadecimal and the supply in
    /// tokens.
    pub open spec fn rendered(self) -> Seq<char> {
        "Transaction Hash: 0x"@ + hex_text(self.hash) + "\nContract Address: 0x"@ + hex_text(
            self.address,
        ) + "\nToken Name: "@ + self.name + "\nTotal Supply: "@ + supply_text(self.supply)
            + "\n"@
    }
}

/// The record that `text` is the rendering of, if it is one.
pub open spec fn parsed(text: Seq<char>) -> Option<RecordView> {
    if exists|v: RecordView| v.wf() && #[trigger] v.rendered() == text {
        Some(choose|v: RecordView| v.wf() && #[trigger] v.rendered() == text)
    } else {
        None
    }
}

/// Whether the supply of a rendering `text` starts at `s`: from there up to
/// the closing line feed all characters are digits or points, and the one
/// before is not, unless `s` is where the name starts.
pub open spec fn is_supply_start(text: Seq<char>, s: int) -> bool {
    &&& NAME_START <= s <= text.len() - 1
    &&& forall|j: int| s <= j < text.len() - 1 ==> is_numeric(#[trigger] text[j])
    &&& s == NAME_START || !is_numeric(text[s - 1])
}

/// The values read from the fixed places of `text`, with the supply
/// starting at `s`.
pub open spec fn read_back(text: Seq<char>, s: int) -> Option<RecordView> {
    match supply_value(text.subrange(s, text.len() - 1)) {
        Some(raw) => Some(
            RecordView {
                hash: hex_decode(text.subrange(HASH_START as int, HASH_END as int)),
                address: hex_decode(text.subrange(ADDRESS_START as int, ADDRESS_END as int)),
                name: text.subrange(NAME_START as int, s - SUPPLY_LABEL_LENGTH),
                supply: raw,
            },
        ),
        None => None,
    }
}

/// In the rendering of a record the supply starts fifteen characters behind
/// the name, and reading the fixed places gives the record back.
pub proof fn lemma_read_back(v: RecordView, s: int)
    requires
        v.wf(),
        is_supply_start(v.rendered(), s),
    ensures
        v.rendered().len() == FRAME_LENGTH + v.name.len() + supply_text(v.supply).len(),
        s == NAME_START + v.name.len() + SUPPLY_LABEL_LENGTH,
        read_back(v.rendered(), s) == Some(v),
{
    let text = v.rendered();
    let m = v.name.len() as int;
    let supply = supply_text(v.supply);
    let d = supply.len() as int;
    reveal_strlit("Transaction Hash: 0x");
    reveal_strlit("\nContract Address: 0x");
    reveal_strlit("\nToken Name: ");
    reveal_strlit("\nTotal Supply: ");
    reveal_strlit("\n");
    lemma_supply_text_numeric(v.supply);
    lemma_supply_value_inverts(v.supply);
    lemma_hex_decode_inverts(v.hash);
    lemma_hex_decode_inverts(v.address);
    assert(text.len() == 174 + m + d);
    let start = 173 + m;
    assert(text[start - 1] == ' ');
    assert forall|j: int| start <= j < text.len() - 1 implies is_numeric(#[trigger] text[j]) by {
        assert(text[j] == supply[j - start]);
    }
    if s < start {
        assert(is_numeric(text[start - 1]));
    }
    if s > start {
        assert(is_numeric(text[s - 1]));
    }
    assert(text.subrange(20, 84) =~= hex_text(v.hash));
    assert(text.subrange(105, 145) =~= hex_text(v.address));
    assert(text.subrange(158, s - 15) =~= v.name);
    assert(text.subrange(s, text.len() - 1) =~= supply);
}

/// Two records with the same rendering have the same four values.
pub proof fn lemma_rendered_injective(a: RecordView, b: RecordView)
    requires
        a.wf(),
        b.wf(),
        a.rendered() == b.rendered(),
    ensures
        a == b,
{
    let text = a.rendered();
    lemma_supply_start_exists(a);
    let s = choose|s: int| is_supply_start(text, s);
    lemma_read_back(a, s);
    lemma_read_back(b, s);
}

/// The rendering of a record has a place where its supply starts.
pub proof fn lemma_supply_start_exists(v: RecordView)
    requires
        v.wf(),
    ensures
        exists|s: int| is_supply_start(v.rendered(), s),
{
    let text = v.rendered();
    let m = v.name.len() as int;
    let supply = supply_text(v.supply);
    reveal_strlit("Transaction Hash: 0x");
    reveal_strlit("\nContract Address: 0x");
    reveal_strlit("\nToken Name: ");
    reveal_strlit("\nTotal Supply: ");
    reveal_strlit("\n");
    lemma_supply_text_numeric(v.supply);
    let start = 173 + m;
    assert(text[start - 1] == ' ');
    assert forall|j: int| start <= j < text.len() - 1 implies is_numeric(#[trigger] text[j]) by {
        assert(text[j] == supply[j - start]);
    }
    assert(is_supply_start(text, start));
}

/// Reading the rendering of a record recovers its four values.
pub proof fn lemma_parse_inverts_render(v: RecordView)
    requires
        v.wf(),
    ensures
        parsed(v.rendered()) == Some(v),
{
    let text = v.rendered();
    let chosen = choose|c: RecordView| c.wf() && #[trigger] c.rendered() == text;
    lemma_rendered_injective(chosen, v);
}

/// Whether the character is a digit or a point.
fn is_numeric_char(c: char) -> (b: bool)
    ensures
        b == is_numeric(c),
{
    c == '0' || c == '1' || c == '2' || c == '3' || c == '4' || c == '5' || c == '6' || c == '7'
        || c == '8' || c == '9' || c == '.'
}

impl TokenRecord {
    /// The record of the four values.
    pub fn new(hash: Hash256, address: Address, name: String, supply: Uint256) -> (record:
        TokenRecord)
        ensures
            record == (TokenRecord {
                creation_tx_hash: hash,
                contract_address: address,
                name: name,
                supply: supply,
            }),
    {
        TokenRecord { creation_tx_hash: hash, contract_address: address, name, supply }
    }

    /// The values of every record are well formed.
    pub proof fn lemma_view_wf(self)
        ensures
            self@.wf(),
    {
        self.supply.lemma_bounded();
    }

    /// The supply in whole tokens, and the rest in smallest units.
    pub fn scaled_supply(&self) -> (parts: (Uint256, u64))
        ensures
            parts.0@ == self@.supply / (UNITS_PER_TOKEN as nat),
            parts.1 == self@.supply % (UNITS_PER_TOKEN as nat),
    {
        convert_wei(&self.supply)
    }

    /// The text of the record.
    pub fn render(&self) -> (text: String)
        ensures
            text@ == self@.rendered(),
    {
        let mut out = String::from_str("Transaction Hash: 0x");
        append_hex(&mut out, &self.creation_tx_hash.bytes);
        out.append("\nContract Address: 0x");
        append_hex(&mut out, &self.contract_address.bytes);
        out.append("\nToken Name: ");
        out.append(self.name.as_str());
        out.append("\nTotal Supply: ");
        append_supply(&mut out, &self.supply);
        out.append("\n");
        out
    }

    /// Reads a record from its text. Only the exact rendering of a record
    /// is accepted.
    pub fn parse(text: &str) -> (r: Option<TokenRecord>)
        ensures
            match r {
                Some(record) => parsed(text@) == Some(record@),
                None => parsed(text@) is None,
            },
    {
        let chars = chars_of(text);
        let n = chars.len();
        if n < FRAME_LENGTH + 1 {
            proof {
                assert forall|v: RecordView| v.wf() implies #[trigger] v.rendered() != text@ by {
                    lemma_supply_start_exists(v);
                    let s = choose|s: int| is_supply_start(v.rendered(), s);
                    lemma_read_back(v, s);
                    lemma_supply_text_numeric(v.supply);
                }
            }
            return None;
        }
        let end: usize = n - 1;
        let mut start: usize = end;
        while start > NAME_START && is_numeric_char(chars[start - 1])
            invariant
                NAME_START <= start <= end < chars.len(),
                forall|j: int| start <= j < end ==> is_numeric(#[trigger] chars@[j]),
            decreases start,
        {
            start = start - 1;
        }
        assert(is_supply_start(text@, start as int));
        if start < NAME_START + SUPPLY_LABEL_LENGTH {
            proof {
                assert forall|v: RecordView| v.wf() implies #[trigger] v.rendered() != text@ by {
                    if v.rendered() == text@ {
                        lemma_read_back(v, start as int);
                    }
                }
            }
            return None;
        }
        let supply = match decode_supply(&chars, start, end) {
            Some(raw) => raw,
            None => {
                proof {
                    assert forall|v: RecordView| v.wf() implies #[trigger] v.rendered()
                        != text@ by {
                        if v.rendered() == text@ {
                            lemma_read_back(v, start as int);
                        }
                    }
                }
                return None;
            },
        };
        let hash = Hash256::new(decode_hex::<32>(&chars, HASH_START));
        let address = Address::new(decode_hex::<20>(&chars, ADDRESS_START));
        let name = String::from_str(
            text.substring_char(NAME_START, start - SUPPLY_LABEL_LENGTH),
        );
        let record = TokenRecord::new(hash, address, name, supply);
        assert(read_back(text@, start as int) == Some(record@));
        let again = record.render();
        let given = String::from_str(text);
        if again == given {
            proof {
                record.lemma_view_wf();
                let chosen = choose|v: RecordView| v.wf() && #[trigger] v.rendered() == text@;
                lemma_rendered_injective(chosen, record@);
            }
            Some(record)
        } else {
            proof {
                assert forall|v: RecordView| v.wf() implies #[trigger] v.rendered() != text@ by {
                    if v.rendered() == text@ {
                        lemma_read_back(v, start as int);
                    }
                }
            }
            None
        }
    }
}

} // verus!
