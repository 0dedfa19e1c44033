//! Seed identifiers: the human-shareable ten-character id, the 64-bit seed
//! derived from it by a stable hash, and the pairing of both.

use vstd::prelude::*;

use rand::Rng;

verus! {

/// Number of characters in a seed identifier.
pub const ID_LENGTH: usize = 10;

/// Offset basis of the 64-bit Fowler–Noll–Vo (variant 1a) hash.
pub const FNV_OFFSET_BASIS: u64 = 0xcbf29ce484222325;

/// Multiplier of the 64-bit Fowler–Noll–Vo (variant 1a) hash.
pub const FNV_PRIME: u64 = 0x100000001b3;

/// The character that a sampled value in `0..=35` maps to: `A`–`Z` for
/// `0..=25`, `0`–`9` for `26..=35`.
pub open spec fn alphabet_char(n: int) -> char
    recommends
        0 <= n <= 35,
{
    if n == 0 {
        'A'
    } else if n == 1 {
        'B'
    } else if n == 2 {
        'C'
    } else if n == 3 {
        'D'
    } else if n == 4 {
        'E'
    } else if n == 5 {
        'F'
    } else if n == 6 {
        'G'
    } else if n == 7 {
        'H'
    } else if n == 8 {
        'I'
    } else if n == 9 {
        'J'
    } else if n == 10 {
        'K'
    } else if n == 11 {
        'L'
    } else if n == 12 {
        'M'
    } else if n == 13 {
        'N'
    } else if n == 14 {
        'O'
    } else if n == 15 {
        'P'
    } else if n == 16 {
        'Q'
    } else if n == 17 {
        'R'
    } else if n == 18 {
        'S'
    } else if n == 19 {
        'T'
    } else if n == 20 {
        'U'
    } else if n == 21 {
        'V'
    } else if n == 22 {
        'W'
    } else if n == 23 {
        'X'
    } else if n == 24 {
        'Y'
    } else if n == 25 {
        'Z'
    } else if n == 26 {
        '0'
    } else if n == 27 {
        '1'
    } else if n == 28 {
        '2'
    } else if n == 29 {
        '3'
    } else if n == 30 {
        '4'
    } else if n == 31 {
        '5'
    } else if n == 32 {
        '6'
    } else if n == 33 {
        '7'
    } else if n == 34 {
        '8'
    } else {
        '9'
    }
}

/// Whether a character belongs to the 36-symbol seed alphabet.
pub open spec fn is_seed_char(c: char) -> bool {
    exists|n: int| 0 <= n <= 35 && c == #[trigger] alphabet_char(n)
}

/// One step of the stable hash: mix one character into the running value.
pub open spec fn stable_hash_step(h: u64, c: char) -> u64 {
    vstd::wrapping::u64_specs::wrapping_mul(h ^ (c as u64), FNV_PRIME)
}

/// The stable hash of a character sequence: the Fowler–Noll–Vo (variant 1a)
/// fold of the characters' code points, left to right.
pub open spec fn stable_hash_of(chars: Seq<char>) -> u64
    decreases chars.len(),
{
    if chars.len() == 0 {
        FNV_OFFSET_BASIS
    } else {
        stable_hash_step(stable_hash_of(chars.drop_last()), chars.last())
    }
}

/// A character validated to lie in the seed alphabet.
pub struct ValidSeedChar(char);

impl ValidSeedChar {
    /// The validated character itself.
    pub closed spec fn spec_char(self) -> char {
        self.0
    }

    /// Maps a sampled value to its alphabet character; values outside
    /// `0..=35` are rejected.
    pub fn new(num: u8) -> (r: Option<ValidSeedChar>)
        ensures
            r is Some <==> num <= 35,
            r matches Some(v) ==> v.spec_char() == alphabet_char(num as int),
    {
        match ValidSeedChar::convert_to_char(num) {
            Some(c) => Some(ValidSeedChar(c)),
            None => None,
        }
    }

    /// Hands the validated character out.
    pub fn get(self) -> (c: char)
        ensures
            c == self.spec_char(),
    {
        self.0
    }

    fn convert_to_char(num: u8) -> (r: Option<char>)
        ensures
            r is Some <==> num <= 35,
            r matches Some(c) ==> c == alphabet_char(num as int),
    {
        match num {
            0 => Some('A'),
            1 => Some('B'),
            2 => Some('C'),
            3 => Some('D'),
            4 => Some('E'),
            5 => Some('F'),
            6 => Some('G'),
            7 => Some('H'),
            8 => Some('I'),
            9 => Some('J'),
            10 => Some('K'),
            11 => Some('L'),
            12 => Some('M'),
            13 => Some('N'),
            14 => Some('O'),
            15 => Some('P'),
            16 => Some('Q'),
            17 => Some('R'),
            18 => Some('S'),
            19 => Some('T'),
            20 => Some('U'),
            21 => Some('V'),
            22 => Some('W'),
            23 => Some('X'),
            24 => Some('Y'),
            25 => Some('Z'),
            26 => Some('0'),
            27 => Some('1'),
            28 => Some('2'),
            29 => Some('3'),
            30 => Some('4'),
            31 => Some('5'),
            32 => Some('6'),
            33 => Some('7'),
            34 => Some('8'),
            35 => Some('9'),
            _ => None,
        }
    }
}

/// The human-shareable seed identifier: a string of exactly `ID_LENGTH`
/// characters.
#[derive(Clone)]
pub struct SeedId(String);

impl View for SeedId {
    type V = Seq<char>;

    closed spec fn view(&self) -> Seq<char> {
        self.0@
    }
}

impl SeedId {
    /// Accepts a string as a seed identifier exactly when it has `ID_LENGTH`
    /// characters.
    pub fn new(seed_string: String) -> (r: Option<SeedId>)
        ensures
            r is Some <==> seed_string@.len() == ID_LENGTH,
            r matches Some(id) ==> id@ == seed_string@,
    {
        if seed_string.as_str().unicode_len() == ID_LENGTH {
            Some(SeedId(seed_string))
        } else {
            None
        }
    }

    /// Hands the identifier string out.
    pub fn get(self) -> (s: String)
        ensures
            s@ == self@,
    {
        self.0
    }

    /// A copy of the identifier string.
    pub fn get_clone(&self) -> (s: String)
        ensures
            s@ == self@,
    {
        self.0.clone()
    }
}

/// The 64-bit seed value that drives the deterministic rng.
#[derive(Copy, Clone)]
pub struct IntSeed(u64);

impl View for IntSeed {
    type V = u64;

    closed spec fn view(&self) -> u64 {
        self.0
    }
}

impl IntSeed {
    /// Derives the integer seed from a seed identifier: the same identifier
    /// always yields the same value.
    pub fn get_hashed_seed(seed_id: &SeedId) -> (r: IntSeed)
        ensures
            r@ == stable_hash_of(seed_id@),
    {
        IntSeed::hash_seed_id(seed_id.0.as_str())
    }

    fn hash_seed_id(id: &str) -> (r: IntSeed)
        ensures
            r@ == stable_hash_of(id@),
    {
        let len = id.unicode_len();
        let mut h: u64 = FNV_OFFSET_BASIS;
        let mut i: usize = 0;
        while i < len
            invariant
                len == id@.len(),
                i <= len,
                h == stable_hash_of(id@.take(i as int)),
            decreases len - i,
        {
            let c = id.get_char(i);
            h = (h ^ (c as u64)).wrapping_mul(FNV_PRIME);
            proof {
                assert(id@.take(i + 1).drop_last() =~= id@.take(i as int));
                assert(id@.take(i + 1).last() == id@[i as int]);
            }
            i = i + 1;
        }
        proof {
            assert(id@.take(len as int) =~= id@);
        }
        IntSeed(h)
    }

    /// Hands the seed value out.
    pub fn get(self) -> (n: u64)
        ensures
            n == self@,
    {
        self.0
    }

    /// A copy of the seed value.
    pub fn get_clone(&self) -> (n: u64)
        ensures
            n == self@,
    {
        self.0
    }
}

/// A generated seed: the shareable identifier together with the integer seed
/// derived from it.
pub struct Seed {
    id: SeedId,
    int_seed: IntSeed,
}

impl Seed {
    /// The identifier's characters.
    pub closed spec fn spec_id(self) -> Seq<char> {
        self.id@
    }

    /// The derived integer seed.
    pub closed spec fn spec_int_seed(self) -> u64 {
        self.int_seed@
    }

    /// Samples a fresh identifier from system entropy and derives its
    /// integer seed. The identifier has exactly `ID_LENGTH` characters, all
    /// from the seed alphabet, and the integer seed is the stable hash of
    /// the identifier.
    pub fn generate_seed() -> (r: Option<Seed>)
        ensures
            r is Some,
            r matches Some(seed) ==> {
                &&& seed.spec_id().len() == ID_LENGTH
                &&& forall|i: int| 0 <= i < seed.spec_id().len() ==> is_seed_char(#[trigger] seed.spec_id()[i])
                &&& seed.spec_int_seed() == stable_hash_of(seed.spec_id())
            },
    {
        let mut id_string = String::new();
        let mut i: usize = 0;
        while i < ID_LENGTH
            invariant
                i <= ID_LENGTH,
                id_string@.len() == i,
                forall|j: int| 0 <= j < i ==> is_seed_char(#[trigger] id_string@[j]),
            decreases ID_LENGTH - i,
        {
            let num = sample_alphabet_index();
            let valid_char = match ValidSeedChar::new(num) {
                Some(v) => v,
                None => {
                    return None;
                },
            };
            proof {
                assert(is_seed_char(valid_char.spec_char())) by {
                    assert(valid_char.spec_char() == alphabet_char(num as int));
                }
            }
            push_char(&mut id_string, valid_char.get());
            i = i + 1;
        }
        let seed_id = match SeedId::new(id_string) {
            Some(id) => id,
            None => {
                return None;
            },
        };
        let int_seed = IntSeed::get_hashed_seed(&seed_id);
        Some(Seed { id: seed_id, int_seed })
    }

    /// A seed rebuilt from a shared identifier, deriving the integer seed
    /// from it the same way as for a freshly generated one: this is how a
    /// shared identifier reproduces another player's world.
    pub fn from_id(id: SeedId) -> (seed: Seed)
        ensures
            seed.spec_id() == id@,
            seed.spec_int_seed() == stable_hash_of(id@),
    {
        let int_seed = IntSeed::get_hashed_seed(&id);
        Seed { id, int_seed }
    }

    /// A copy of the identifier string, for display and sharing.
    pub fn get_id_clone(&self) -> (s: String)
        ensures
            s@ == self.spec_id(),
    {
        self.id.get_clone()
    }

    /// A copy of the integer seed.
    pub fn get_int_seed_clone(&self) -> (n: u64)
        ensures
            n == self.spec_int_seed(),
    {
        self.int_seed.get_clone()
    }
}

/// Relies on rand's `thread_rng` and `Rng::gen_range`: a sample from a
/// non-empty inclusive range lies within that range. The sample comes from
/// system entropy, so nothing more is known of it.
#[verifier::external_body]
fn sample_alphabet_index() -> (n: u8)
    ensures
        n <= 35,
{
    rand::thread_rng().gen_range(0..=35u8)
}

/// Relies on std's `String::push`, which appends the given character to the
/// end of the string.
#[verifier::external_body]
fn push_char(s: &mut String, c: char)
    ensures
        final(s)@ == old(s)@.push(c),
{
    s.push(c);
}

} // verus!
