use vstd::prelude::*;

verus! {

/// The decimal digit `d` as a character.
pub open spec fn digit_char(d: nat) -> char {
    if d == 0 { '0' }
    else if d == 1 { '1' }
    else if d == 2 { '2' }
    else if d == 3 { '3' }
    else if d == 4 { '4' }
    else if d == 5 { '5' }
    else if d == 6 { '6' }
    else if d == 7 { '7' }
    else if d == 8 { '8' }
    else { '9' }
}

/// `n` in decimal, without leading zeros.
pub open spec fn decimal(n: nat) -> Seq<char>
    decreases n,
{
    if n < 10 {
        seq![digit_char(n)]
    } else {
        decimal(n / 10) + seq![digit_char(n % 10)]
    }
}

fn digit_str(d: usize) -> (r: &'static str)
    requires
        d < 10,
    ensures
        r@ == seq![digit_char(d as nat)],
{
    proof {
        reveal_strlit("0");
        reveal_strlit("1");
        reveal_strlit("2");
        reveal_strlit("3");
        reveal_strlit("4");
        reveal_strlit("5");
        reveal_strlit("6");
        reveal_strlit("7");
        reveal_strlit("8");
        reveal_strlit("9");
    }
    if d == 0 { "0" }
    else if d == 1 { "1" }
    else if d == 2 { "2" }
    else if d == 3 { "3" }
    else if d == 4 { "4" }
    else if d == 5 { "5" }
    else if d == 6 { "6" }
    else if d == 7 { "7" }
    else if d == 8 { "8" }
    else { "9" }
}

/// `n` written in decimal.
pub fn decimal_string(n: usize) -> (r: String)
    ensures
        r@ == decimal(n as nat),
    decreases n,
{
    if n < 10 {
        digit_str(n).to_owned()
    } else {
        let head = decimal_string(n / 10);
        head.concat(digit_str(n % 10))
    }
}

/// The directory of the `n`-th audio output of a split under `base`:
/// `base/audio_<n>`.
pub fn audio_dir(base: &str, n: usize) -> (r: String)
    ensures
        r@ == base@ + "/audio_"@ + decimal(n as nat),
{
    let num = decimal_string(n);
    base.to_owned().concat("/audio_").concat(num.as_str())
}

/// The provisional path an output is written under: `dir/<segment>.tmp.ts`.
pub fn temp_path(dir: &str, segment: &str) -> (r: String)
    ensures
        r@ == dir@ + "/"@ + segment@ + ".tmp.ts"@,
{
    dir.to_owned().concat("/").concat(segment).concat(".tmp.ts")
}

/// The path an output is published under once complete: `dir/<segment>.ts`.
pub fn final_path(dir: &str, segment: &str) -> (r: String)
    ensures
        r@ == dir@ + "/"@ + segment@ + ".ts"@,
{
    dir.to_owned().concat("/").concat(segment).concat(".ts")
}

/// Every output's trailer was written.
pub open spec fn all_written(trailer_ok: Seq<bool>) -> bool {
    forall|i: int| 0 <= i < trailer_ok.len() ==> trailer_ok[i]
}

/// The outputs to publish, by index: all of them when every trailer was
/// written, none otherwise.
pub open spec fn published(trailer_ok: Seq<bool>) -> Seq<usize> {
    if all_written(trailer_ok) {
        Seq::new(trailer_ok.len(), |i: int| i as usize)
    } else {
        Seq::empty()
    }
}

/// Which outputs to publish under their final names, given whether each
/// output's trailer was written: all of them when every trailer was written,
/// none otherwise.
pub fn commit_plan(trailer_ok: &Vec<bool>) -> (r: Vec<usize>)
    ensures
        r@ == published(trailer_ok@),
{
    let mut i: usize = 0;
    while i < trailer_ok.len()
        invariant
            i <= trailer_ok@.len(),
            forall|j: int| 0 <= j < i ==> trailer_ok@[j],
        decreases trailer_ok.len() - i,
    {
        if !trailer_ok[i] {
            return Vec::new();
        }
        i = i + 1;
    }
    let mut r: Vec<usize> = Vec::new();
    let mut k: usize = 0;
    while k < trailer_ok.len()
        invariant
            k <= trailer_ok@.len(),
            r@.len() == k,
            forall|j: int| 0 <= j < k ==> r@[j] == j,
        decreases trailer_ok.len() - k,
    {
        r.push(k);
        k = k + 1;
    }
    assert(r@ =~= published(trailer_ok@));
    r
}

/// An output is only ever published when its own trailer was written.
pub proof fn lemma_published_only_when_written(trailer_ok: Seq<bool>, k: int)
    requires
        0 <= k < published(trailer_ok).len(),
        trailer_ok.len() <= usize::MAX,
    ensures
        published(trailer_ok)[k] < trailer_ok.len(),
        trailer_ok[published(trailer_ok)[k] as int],
{
}

} // verus!
