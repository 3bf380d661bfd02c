use vstd::prelude::*;

verus! {

/// Entry `i` of the bundled word table; the table is a fixed public constant
/// of the provider crate, so each entry is a function of the index alone.
pub uninterp spec fn provider_word(i: int) -> Seq<u8>;

/// Relies on mnemonic::MN_WORDS: a fixed, public word table; this returns a
/// copy of entry `i`.
#[verifier::external_body]
fn provider_word_bytes(i: usize) -> (w: Vec<u8>)
    requires
        i < 1626,
    ensures
        w@ == provider_word(i as int),
{
    mnemonic::MN_WORDS[i].to_vec()
}

/// A word fit for a mnemonic: at least one byte, every byte printable ASCII
/// other than the space separator.
pub open spec fn word_ok(w: Seq<u8>) -> bool {
    &&& 1 <= w.len()
    &&& forall|k: int| 0 <= k < w.len() ==> 33 <= #[trigger] w[k] <= 126
}

/// A valid seed wordlist: exactly 1626 words, each fit for a mnemonic, and no
/// word repeated.
pub open spec fn wordlist_valid(ws: Seq<Seq<u8>>) -> bool {
    &&& ws.len() == 1626
    &&& forall|i: int| 0 <= i < ws.len() ==> word_ok(#[trigger] ws[i])
    &&& forall|i: int, j: int| 0 <= i < j < ws.len() ==> ws[i] != ws[j]
}

/// Compare two byte strings.
pub fn bytes_eq(a: &Vec<u8>, b: &Vec<u8>) -> (r: bool)
    ensures
        r == (a@ == b@),
{
    if a.len() != b.len() {
        return false;
    }
    let mut i: usize = 0;
    while i < a.len()
        invariant
            0 <= i <= a@.len(),
            a@.len() == b@.len(),
            forall|k: int| 0 <= k < i ==> a@[k] == b@[k],
        decreases a@.len() - i,
    {
        if a[i] != b[i] {
            return false;
        }
        i = i + 1;
    }
    proof {
        assert(a@ =~= b@);
    }
    true
}

/// A seed wordlist, validated when it is constructed: the codec's encoding
/// and decoding are defined over these words, and the checksum covers each
/// word's first `prefix_len` bytes, as the language prescribes.
pub struct Wordlist {
    words: Vec<Vec<u8>>,
    prefix_len: usize,
}

impl Wordlist {
    /// The words, as byte strings.
    pub closed spec fn words(self) -> Seq<Seq<u8>> {
        Seq::new(self.words@.len() as nat, |i: int| self.words@[i]@)
    }

    /// The language's checksum prefix length.
    pub closed spec fn prefix_length(self) -> int {
        self.prefix_len as int
    }

    /// The list satisfies every wordlist rule and carries a usable prefix
    /// length.
    pub open spec fn wf(self) -> bool {
        &&& wordlist_valid(self.words())
        &&& 1 <= self.prefix_length()
    }

    /// Read the checksum prefix length.
    pub fn prefix(&self) -> (n: usize)
        ensures
            n as int == self.prefix_length(),
    {
        self.prefix_len
    }

    /// Validate a candidate list of words with its checksum prefix length;
    /// `None` exactly when some rule fails.
    pub fn new(words: Vec<Vec<u8>>, prefix_len: usize) -> (r: Option<Wordlist>)
        ensures
            r matches Some(wl) ==> wl.wf() && wl.words() == Seq::new(
                words@.len() as nat,
                |i: int| words@[i]@,
            ) && wl.prefix_length() == prefix_len,
            r is None ==> !wordlist_valid(Seq::new(words@.len() as nat, |i: int| words@[i]@))
                || prefix_len == 0,
    {
        let ghost wsv = Seq::new(words@.len() as nat, |i: int| words@[i]@);
        if prefix_len == 0 {
            return None;
        }
        if words.len() != 1626 {
            return None;
        }
        let mut i: usize = 0;
        while i < 1626
            invariant
                0 <= i <= 1626,
                words@.len() == 1626,
                wsv == Seq::new(words@.len() as nat, |k: int| words@[k]@),
                forall|k: int| 0 <= k < i ==> word_ok(#[trigger] wsv[k]),
            decreases 1626 - i,
        {
            let w = &words[i];
            if w.len() == 0 {
                assert(!word_ok(wsv[i as int]));
                return None;
            }
            let mut k: usize = 0;
            while k < w.len()
                invariant
                    0 <= k <= w@.len(),
                    i < 1626,
                    words@.len() == 1626,
                    wsv == Seq::new(words@.len() as nat, |t: int| words@[t]@),
                    w@ == wsv[i as int],
                    forall|t: int| 0 <= t < k ==> 33 <= #[trigger] w@[t] <= 126,
                decreases w@.len() - k,
            {
                let b = w[k];
                if b < 33 || b > 126 {
                    assert(!word_ok(wsv[i as int]));
                    return None;
                }
                k = k + 1;
            }
            assert(word_ok(wsv[i as int]));
            i = i + 1;
        }
        let mut a: usize = 1;
        while a < 1626
            invariant
                1 <= a <= 1626,
                words@.len() == 1626,
                wsv == Seq::new(words@.len() as nat, |k: int| words@[k]@),
                forall|p: int, q: int| 0 <= p < q < a ==> wsv[p] != wsv[q],
            decreases 1626 - a,
        {
            let mut b: usize = 0;
            while b < a
                invariant
                    0 <= b <= a < 1626,
                    words@.len() == 1626,
                    wsv == Seq::new(words@.len() as nat, |k: int| words@[k]@),
                    forall|q: int| 0 <= q < b ==> wsv[q] != wsv[a as int],
                decreases a - b,
            {
                if bytes_eq(&words[a], &words[b]) {
                    assert(wsv[b as int] == wsv[a as int]);
                    assert(!wordlist_valid(wsv));
                    return None;
                }
                b = b + 1;
            }
            a = a + 1;
        }
        let r = Wordlist { words, prefix_len };
        proof {
            assert(r.words() =~~= wsv);
        }
        Some(r)
    }

    /// How many words the list holds.
    pub fn len(&self) -> (n: usize)
        ensures
            n == self.words().len(),
    {
        self.words.len()
    }

    /// Borrow word `i`.
    pub fn word(&self, i: usize) -> (w: &Vec<u8>)
        requires
            i < self.words().len(),
        ensures
            w@ == self.words()[i as int],
    {
        &self.words[i]
    }

    /// Find the index of a word, scanning the list in order.
    pub fn find(&self, w: &Vec<u8>) -> (r: Option<usize>)
        ensures
            r matches Some(i) ==> i < self.words().len() && self.words()[i as int] == w@,
            r is None ==> forall|i: int|
                0 <= i < self.words().len() ==> #[trigger] self.words()[i] != w@,
    {
        let n = self.words.len();
        let mut i: usize = 0;
        while i < n
            invariant
                0 <= i <= n,
                n == self.words().len(),
                forall|k: int| 0 <= k < i ==> #[trigger] self.words()[k] != w@,
            decreases n - i,
        {
            if bytes_eq(&self.words[i], w) {
                return Some(i);
            }
            i = i + 1;
        }
        None
    }
}

/// The words of the bundled provider table.
pub open spec fn bundled_words() -> Seq<Seq<u8>> {
    Seq::new(1626, |i: int| provider_word(i))
}

/// The checksum prefix length used with the bundled table.
pub open spec fn bundled_prefix_length() -> int {
    3
}

/// The word table a language selects.  The bundled provider publishes a
/// single table, so every language resolves to it; the codec's guarantees
/// are proved for any valid table a provider supplies.
pub open spec fn words_of_language(lang: crate::lang::Language) -> Seq<Seq<u8>> {
    bundled_words()
}

/// The checksum prefix length of a language's table.  With the bundled
/// provider every language carries the bundled length.
pub open spec fn prefix_length_of_language(lang: crate::lang::Language) -> int {
    bundled_prefix_length()
}

/// Load and validate the word table for a language; `None` exactly when the
/// selected table breaks a wordlist rule.
pub fn wordlist_for_language(lang: crate::lang::Language) -> (r: Option<Wordlist>)
    ensures
        r matches Some(wl) ==> wl.wf() && wl.words() == words_of_language(lang)
            && wl.prefix_length() == prefix_length_of_language(lang),
        r is None ==> !wordlist_valid(words_of_language(lang)),
{
    bundled_wordlist()
}

/// Load the bundled provider table and validate it; `None` exactly when the
/// provider's words break a wordlist rule.
pub fn bundled_wordlist() -> (r: Option<Wordlist>)
    ensures
        r matches Some(wl) ==> wl.wf() && wl.words() == bundled_words() && wl.prefix_length()
            == bundled_prefix_length(),
        r is None ==> !wordlist_valid(bundled_words()),
{
    let mut words: Vec<Vec<u8>> = Vec::new();
    let mut i: usize = 0;
    while i < 1626
        invariant
            0 <= i <= 1626,
            words@.len() == i,
            forall|k: int| 0 <= k < i ==> #[trigger] words@[k]@ == provider_word(k),
        decreases 1626 - i,
    {
        words.push(provider_word_bytes(i));
        i = i + 1;
    }
    proof {
        assert(Seq::new(words@.len() as nat, |k: int| words@[k]@) =~~= bundled_words());
    }
    let r = Wordlist::new(words, 3);
    match r {
        Some(wl) => {
            proof {
                assert(wl.words() =~~= bundled_words());
            }
            Some(wl)
        },
        None => None,
    }
}

} // verus!
