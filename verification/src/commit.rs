//! Commit identifiers and their textual form.

use vstd::prelude::*;

verus! {

/// The name of a commit: the content hash of the commit object, 20 bytes long.
///
/// Two identifiers name the same commit exactly when all their bytes agree;
/// there is no matching by prefix.
#[derive(Clone, Copy, Debug, Eq, Hash)]
pub struct CommitId {
    bytes: [u8; 20],
}

impl View for CommitId {
    type V = Seq<u8>;

    closed spec fn view(&self) -> Seq<u8> {
        self.bytes@
    }
}

/// The digit that stands for `nibble`, a number below 16, in lower-case
/// hexadecimal.
pub open spec fn hex_digit(nibble: int) -> char {
    "0123456789abcdef"@[nibble]
}

/// The lower-case hexadecimal text of `bytes`: two digits for each byte, the
/// high half of the byte first.
pub open spec fn hex_text(bytes: Seq<u8>) -> Seq<char> {
    Seq::new(
        2 * bytes.len(),
        |i: int|
            if i % 2 == 0 {
                hex_digit(bytes[i / 2] as int / 16)
            } else {
                hex_digit(bytes[i / 2] as int % 16)
            },
    )
}

impl CommitId {
    /// The identifier made of the given bytes.
    pub fn new(bytes: [u8; 20]) -> (id: CommitId)
        ensures
            id@ == bytes@,
    {
        CommitId { bytes }
    }

    /// The bytes of the identifier.
    pub fn as_bytes(&self) -> (bytes: &[u8; 20])
        ensures
            bytes@ == self@,
    {
        &self.bytes
    }

    /// The full textual form of the identifier: 40 lower-case hexadecimal
    /// digits.
    pub fn to_hex(&self) -> (text: String)
        ensures
            text@ == hex_text(self@),
            text@.len() == 40,
    {
        let mut text = String::new();
        let mut i: usize = 0;
        while i < 20
            invariant
                i <= 20,
                text@ == hex_text(self@.take(i as int)),
            decreases 20 - i,
        {
            let byte = self.bytes[i];
            text.append(hex_digit_str(byte / 16));
            text.append(hex_digit_str(byte % 16));
            i += 1;
            assert(text@ =~= hex_text(self@.take(i as int)));
        }
        assert(self@.take(20) =~= self@);
        text
    }

    /// An identifier has 20 bytes.
    pub proof fn lemma_view_len(self)
        ensures
            self@.len() == 20,
    {
    }

    /// Identifiers with the same bytes are the same identifier.
    pub proof fn lemma_view_injective(self, other: CommitId)
        ensures
            self@ == other@ <==> self == other,
    {
        if self@ == other@ {
            assert(self.bytes =~= other.bytes);
        }
    }
}

/// The one-character text of the hexadecimal digit for `nibble`.
fn hex_digit_str(nibble: u8) -> (digit: &'static str)
    requires
        nibble < 16,
    ensures
        digit@ == seq![hex_digit(nibble as int)],
{
    let table: &'static str = "0123456789abcdef";
    proof {
        reveal_strlit("0123456789abcdef");
    }
    let digit = table.substring_ascii(nibble as usize, nibble as usize + 1);
    assert(digit@ =~= seq![hex_digit(nibble as int)]);
    digit
}

impl PartialEq for CommitId {
    fn eq(&self, other: &CommitId) -> (equal: bool) {
        let mut i: usize = 0;
        while i < 20
            invariant
                i <= 20,
                forall|j: int| 0 <= j < i ==> self.bytes[j] == other.bytes[j],
            decreases 20 - i,
        {
            if self.bytes[i] != other.bytes[i] {
                return false;
            }
            i += 1;
        }
        assert(self.bytes =~= other.bytes);
        true
    }
}

impl vstd::std_specs::cmp::PartialEqSpecImpl for CommitId {
    open spec fn obeys_eq_spec() -> bool {
        true
    }

    open spec fn eq_spec(&self, other: &CommitId) -> bool {
        *self == *other
    }
}

} // verus!
