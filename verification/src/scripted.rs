//! Scripted capabilities: a deterministic stand-in model and tokenizer.
//!
//! The scripted model replays a fixed token script instead of running a
//! transformer, and the scripted codec maps the letters `a..z` to the token
//! ids `0..25`. Together they let the generation loop run end to end with
//! fully predictable behavior, which is what the tests exercise; any real
//! numeric backend plugs into the same traits. The trait methods delegate
//! to inherent functions whose contracts state the behavior exactly.

use vstd::prelude::*;
use vstd::string::{StringExecFns, StringSliceAdditionalSpecFns};
use crate::engine::{GenerationConfig, LanguageModel, TokenCodec};

verus! {

/// The token id encoded little-endian in the four bytes starting at `4*i`.
pub open spec fn word_at(bytes: Seq<u8>, i: int) -> u32 {
    (bytes[4 * i] as u32) | ((bytes[4 * i + 1] as u32) << 8) | ((bytes[4 * i + 2] as u32) << 16)
        | ((bytes[4 * i + 3] as u32) << 24)
}

/// Every aligned four-byte group of `bytes` as a little-endian token id.
pub open spec fn le_words(bytes: Seq<u8>) -> Seq<u32> {
    Seq::new((bytes.len() / 4) as nat, |i: int| word_at(bytes, i))
}

/// Replays a fixed script of token ids. `begin` rewinds the script, so a
/// call with the same configuration and prompt sees the same tokens; the
/// script runs out with an error rather than wrapping around.
pub struct ScriptedModel {
    script: Vec<u32>,
    next: usize,
}

impl ScriptedModel {
    /// The tokens this model will emit, in order.
    pub closed spec fn script_view(&self) -> Seq<u32> {
        self.script@
    }

    /// How many script tokens have been emitted since the last rewind.
    pub closed spec fn cursor(&self) -> nat {
        self.next as nat
    }

    /// Builds a model that will emit exactly `script`, in order.
    pub fn from_script(script: Vec<u32>) -> (r: Self)
        ensures
            r.script_view() == script@,
            r.cursor() == 0,
    {
        ScriptedModel { script, next: 0 }
    }

    /// Decodes a script from raw bytes: each consecutive four bytes
    /// little-endian encode one token id; a length that is not a multiple
    /// of four is malformed.
    pub fn parse_script(weights: &Vec<u8>) -> (r: Result<Vec<u32>, String>)
        ensures
            weights@.len() % 4 == 0 <==> r is Ok,
            r matches Ok(w) ==> w@ == le_words(weights@),
            r matches Err(m) ==> m@ == "weights length is not a multiple of four"@,
    {
        if weights.len() % 4 != 0 {
            return Err("weights length is not a multiple of four".to_owned());
        }
        let n = weights.len();
        let mut script: Vec<u32> = Vec::new();
        let mut i: usize = 0;
        while n - i >= 4
            invariant
                n == weights@.len(),
                n % 4 == 0,
                i % 4 == 0,
                i <= n,
                script@ =~= le_words(weights@).take(i as int / 4),
            decreases n - i,
        {
            let ghost w = i as int / 4;
            proof {
                assert(4 * w == i);
                assert(w < n as int / 4);
            }
            let b0 = weights[i] as u32;
            let b1 = weights[i + 1] as u32;
            let b2 = weights[i + 2] as u32;
            let b3 = weights[i + 3] as u32;
            script.push(b0 | (b1 << 8) | (b2 << 16) | (b3 << 24));
            proof {
                assert(le_words(weights@)[w] == word_at(weights@, w));
                assert(le_words(weights@).take(w + 1).drop_last() =~= le_words(weights@).take(w));
                assert(script@ =~= le_words(weights@).take(w + 1));
            }
            i = i + 4;
            proof {
                assert(i as int / 4 == w + 1);
            }
        }
        proof {
            assert(i == n);
            assert(le_words(weights@).take(i as int / 4) =~= le_words(weights@));
        }
        Ok(script)
    }

    /// Rewinds the script to its start.
    pub fn rewind(&mut self)
        ensures
            final(self).script_view() == old(self).script_view(),
            final(self).cursor() == 0,
    {
        self.next = 0;
    }

    /// Emits the next script token: exactly the one at the cursor, which
    /// advances; an exhausted script fails and changes nothing.
    pub fn next_scripted(&mut self) -> (r: Result<u32, String>)
        ensures
            final(self).script_view() == old(self).script_view(),
            old(self).cursor() < old(self).script_view().len() ==> (r matches Ok(t) && t == old(
                self,
            ).script_view()[old(self).cursor() as int] && final(self).cursor() == old(
                self,
            ).cursor() + 1),
            old(self).cursor() >= old(self).script_view().len() ==> (r matches Err(m) && m@
                == "script exhausted"@ && *final(self) == *old(self)),
    {
        if self.next < self.script.len() {
            let tok = self.script[self.next];
            self.next = self.next + 1;
            Ok(tok)
        } else {
            Err("script exhausted".to_owned())
        }
    }
}

impl LanguageModel for ScriptedModel {
    fn load(weights: &Vec<u8>) -> (r: Result<Self, String>) {
        match Self::parse_script(weights) {
            Ok(script) => Ok(ScriptedModel { script, next: 0 }),
            Err(m) => Err(m),
        }
    }

    fn begin(&mut self, _config: &GenerationConfig) {
        self.rewind();
    }

    fn reset(&mut self) {
        self.rewind();
    }

    fn forward_sample(&mut self, _input: &Vec<u32>, _offset: usize) -> (r: Result<u32, String>) {
        self.next_scripted()
    }
}

/// Whether every byte is a lowercase ASCII letter.
pub open spec fn all_letters(bytes: Seq<u8>) -> bool {
    forall|i: int| 0 <= i < bytes.len() ==> 97 <= #[trigger] bytes[i] <= 122
}

/// Each letter byte as its token id `0..25`.
pub open spec fn letter_tokens(bytes: Seq<u8>) -> Seq<u32> {
    bytes.map_values(|b: u8| (b - 97) as u32)
}

/// The letter a token id below 26 decodes to.
pub open spec fn letter_char(t: u32) -> char {
    if t == 0 {
        'a'
    } else if t == 1 {
        'b'
    } else if t == 2 {
        'c'
    } else if t == 3 {
        'd'
    } else if t == 4 {
        'e'
    } else if t == 5 {
        'f'
    } else if t == 6 {
        'g'
    } else if t == 7 {
        'h'
    } else if t == 8 {
        'i'
    } else if t == 9 {
        'j'
    } else if t == 10 {
        'k'
    } else if t == 11 {
        'l'
    } else if t == 12 {
        'm'
    } else if t == 13 {
        'n'
    } else if t == 14 {
        'o'
    } else if t == 15 {
        'p'
    } else if t == 16 {
        'q'
    } else if t == 17 {
        'r'
    } else if t == 18 {
        's'
    } else if t == 19 {
        't'
    } else if t == 20 {
        'u'
    } else if t == 21 {
        'v'
    } else if t == 22 {
        'w'
    } else if t == 23 {
        'x'
    } else if t == 24 {
        'y'
    } else {
        'z'
    }
}

/// Maps the letters `a..z` to token ids `0..25` and back. Vocabulary
/// probes answer with id `26` for the primary end marker and `27` for the
/// secondary, when the tokenizer blob enables them.
pub struct ScriptedCodec {
    eos_primary: Option<u32>,
    eos_secondary: Option<u32>,
}

impl ScriptedCodec {
    /// The id a probe for the primary end marker answers with.
    pub closed spec fn primary_marker(&self) -> Option<u32> {
        self.eos_primary
    }

    /// The id a probe for the secondary end marker answers with.
    pub closed spec fn secondary_marker(&self) -> Option<u32> {
        self.eos_secondary
    }

    /// The id the primary end marker resolves to, when enabled.
    pub fn primary_eos_id() -> (r: u32)
        ensures
            r == 26,
    {
        26
    }

    /// The id the secondary end marker resolves to, when enabled.
    pub fn secondary_eos_id() -> (r: u32)
        ensures
            r == 27,
    {
        27
    }

    /// Builds a codec that answers vocabulary probes with the given ids.
    pub fn with_markers(eos_primary: Option<u32>, eos_secondary: Option<u32>) -> (r: Self)
        ensures
            r.primary_marker() == eos_primary,
            r.secondary_marker() == eos_secondary,
    {
        ScriptedCodec { eos_primary, eos_secondary }
    }

    /// Decodes the one-byte marker flags: bit 0 enables the primary end
    /// marker with id 26, bit 1 the secondary with id 27; an empty blob
    /// is malformed.
    pub fn decode_markers(data: &Vec<u8>) -> (r: Result<Self, String>)
        ensures
            data@.len() == 0 <==> r is Err,
            r matches Err(m) ==> m@ == "empty tokenizer blob"@,
            r matches Ok(c) ==> c.primary_marker() == (if data@[0] & 1 != 0 {
                Some(26u32)
            } else {
                Option::<u32>::None
            }) && c.secondary_marker() == (if data@[0] & 2 != 0 {
                Some(27u32)
            } else {
                Option::<u32>::None
            }),
    {
        if data.len() == 0 {
            return Err("empty tokenizer blob".to_owned());
        }
        let flags = data[0];
        let eos_primary: Option<u32> = if flags & 1 != 0 {
            Some(26)
        } else {
            None
        };
        let eos_secondary: Option<u32> = if flags & 2 != 0 {
            Some(27)
        } else {
            None
        };
        Ok(ScriptedCodec { eos_primary, eos_secondary })
    }

    /// Encodes a prompt: each lowercase letter becomes its token id, and
    /// any other byte fails the whole prompt.
    pub fn encode_letters(text: &str) -> (r: Result<Vec<u32>, String>)
        ensures
            all_letters(text.spec_bytes()) <==> r is Ok,
            r matches Ok(toks) ==> toks@ == letter_tokens(text.spec_bytes()),
            r matches Err(m) ==> m@ == "unsupported character in prompt"@,
    {
        let bytes = text.as_bytes();
        let mut tokens: Vec<u32> = Vec::new();
        let n = bytes.len();
        let mut i: usize = 0;
        while i < n
            invariant
                bytes@ == text.spec_bytes(),
                n == bytes@.len(),
                i <= n,
                forall|j: int| 0 <= j < i ==> 97 <= #[trigger] bytes@[j] <= 122,
                tokens@ =~= letter_tokens(bytes@.take(i as int)),
            decreases n - i,
        {
            let b = bytes[i];
            if 97 <= b && b <= 122 {
                tokens.push((b - 97) as u32);
                proof {
                    assert(bytes@.take(i + 1 as int).drop_last() =~= bytes@.take(i as int));
                    assert(letter_tokens(bytes@.take(i + 1 as int))
                        =~= letter_tokens(bytes@.take(i as int)).push(((bytes@[i as int] - 97) as u32)));
                    assert(tokens@ =~= letter_tokens(bytes@.take(i + 1 as int)));
                }
            } else {
                return Err("unsupported character in prompt".to_owned());
            }
            i = i + 1;
        }
        proof {
            assert(bytes@.take(n as int) =~= bytes@);
        }
        Ok(tokens)
    }

    /// Decodes one token id: exactly its letter below 26, a failure above.
    pub fn decode_letter(token: u32) -> (r: Result<String, String>)
        ensures
            token < 26 <==> r is Ok,
            r matches Ok(s) ==> s@ == seq![letter_char(token)],
            r matches Err(m) ==> m@ == "token outside vocabulary"@,
    {
        let s: &str = match token {
            0 => "a",
            1 => "b",
            2 => "c",
            3 => "d",
            4 => "e",
            5 => "f",
            6 => "g",
            7 => "h",
            8 => "i",
            9 => "j",
            10 => "k",
            11 => "l",
            12 => "m",
            13 => "n",
            14 => "o",
            15 => "p",
            16 => "q",
            17 => "r",
            18 => "s",
            19 => "t",
            20 => "u",
            21 => "v",
            22 => "w",
            23 => "x",
            24 => "y",
            25 => "z",
            _ => {
                return Err("token outside vocabulary".to_owned());
            },
        };
        proof {
            reveal_strlit("a");
            reveal_strlit("b");
            reveal_strlit("c");
            reveal_strlit("d");
            reveal_strlit("e");
            reveal_strlit("f");
            reveal_strlit("g");
            reveal_strlit("h");
            reveal_strlit("i");
            reveal_strlit("j");
            reveal_strlit("k");
            reveal_strlit("l");
            reveal_strlit("m");
            reveal_strlit("n");
            reveal_strlit("o");
            reveal_strlit("p");
            reveal_strlit("q");
            reveal_strlit("r");
            reveal_strlit("s");
            reveal_strlit("t");
            reveal_strlit("u");
            reveal_strlit("v");
            reveal_strlit("w");
            reveal_strlit("x");
            reveal_strlit("y");
            reveal_strlit("z");
            assert(s@ =~= seq![letter_char(token)]);
        }
        Ok(s.to_owned())
    }

    /// Answers the two end-marker probes; every other lookup misses. The
    /// probe text is compared byte for byte.
    pub fn marker_id(&self, text: &str) -> (r: Option<u32>)
        ensures
            text.spec_bytes() == "<|endoftext|>".spec_bytes() ==> r == self.primary_marker(),
            text.spec_bytes() != "<|endoftext|>".spec_bytes() && text.spec_bytes()
                == "<|im_end|>".spec_bytes() ==> r == self.secondary_marker(),
            text.spec_bytes() != "<|endoftext|>".spec_bytes() && text.spec_bytes()
                != "<|im_end|>".spec_bytes() ==> r is None,
    {
        if bytes_equal(text.as_bytes(), "<|endoftext|>".as_bytes()) {
            self.eos_primary
        } else if bytes_equal(text.as_bytes(), "<|im_end|>".as_bytes()) {
            self.eos_secondary
        } else {
            None
        }
    }
}

impl TokenCodec for ScriptedCodec {
    fn from_bytes(data: &Vec<u8>) -> (r: Result<Self, String>) {
        Self::decode_markers(data)
    }

    fn encode(&self, text: &str) -> (r: Result<Vec<u32>, String>) {
        Self::encode_letters(text)
    }

    fn decode(&self, token: u32) -> (r: Result<String, String>) {
        Self::decode_letter(token)
    }

    fn token_id(&self, text: &str) -> (r: Option<u32>) {
        self.marker_id(text)
    }
}

/// Whether two byte slices hold the same bytes.
fn bytes_equal(a: &[u8], b: &[u8]) -> (r: bool)
    ensures
        r == (a@ == b@),
{
    if a.len() != b.len() {
        proof {
            assert(a@.len() != b@.len());
        }
        return false;
    }
    let n = a.len();
    let mut i: usize = 0;
    while i < n
        invariant
            n == a@.len(),
            n == b@.len(),
            i <= n,
            forall|j: int| 0 <= j < i ==> a@[j] == b@[j],
        decreases n - i,
    {
        if a[i] != b[i] {
            return false;
        }
        i = i + 1;
    }
    proof {
        assert(a@ =~= b@);
    }
    true
}

} // verus!
