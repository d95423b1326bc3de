use vstd::prelude::*;

verus! {

/// What became of one candidate settings file.
pub enum Probe<T> {
    /// The file could not be read (missing, or no permission): it is skipped.
    Unreadable,
    /// The file was read but did not parse: the search stops here.
    Malformed,
    /// The file was read and parsed into these parameters.
    Loaded(T),
}

/// The parameters that the search settled on, and the index of the candidate
/// that supplied them (`None` when the built-in defaults stand).
pub struct Resolution<T> {
    pub params: T,
    pub source: Option<usize>,
}

impl<T> View for Resolution<T> {
    type V = (T, Option<int>);

    open spec fn view(&self) -> (T, Option<int>) {
        (
            self.params,
            match self.source {
                Some(i) => Some(i as int),
                None => None,
            },
        )
    }
}

/// The sequence holding the value of `o`, if any.
pub open spec fn present<T>(o: Option<T>) -> Seq<T> {
    match o {
        Some(x) => seq![x],
        None => Seq::empty(),
    }
}

/// The index of the first malformed probe at or after `i`, or the length of
/// `probes` if there is none.
pub open spec fn cutoff_from<T>(probes: Seq<Probe<T>>, i: int) -> int
    decreases probes.len() - i,
{
    if i < 0 || i >= probes.len() {
        probes.len() as int
    } else if probes[i] is Malformed {
        i
    } else {
        cutoff_from(probes, i + 1)
    }
}

/// How many probes the search looks at: those before the first malformed one.
pub open spec fn cutoff<T>(probes: Seq<Probe<T>>) -> int {
    cutoff_from(probes, 0)
}

/// The last loaded probe among the first `n`, with its index; the defaults and
/// no index when none of them loaded.
pub open spec fn last_loaded<T>(defaults: T, probes: Seq<Probe<T>>, n: int) -> (T, Option<int>)
    decreases n,
{
    if n <= 0 || n > probes.len() {
        (defaults, None)
    } else if probes[n - 1] is Loaded {
        (probes[n - 1]->Loaded_0, Some(n - 1))
    } else {
        last_loaded(defaults, probes, n - 1)
    }
}

/// The outcome of the search: the last file that loaded before the first
/// malformed one replaces the defaults wholesale; with none, the defaults stand.
pub open spec fn settle<T>(defaults: T, probes: Seq<Probe<T>>) -> (T, Option<int>) {
    last_loaded(defaults, probes, cutoff(probes))
}

/// The probe of a file that was read and parsed.
pub open spec fn loaded<T>(p: T) -> Probe<T> {
    Probe::Loaded(p)
}

/// Lists the candidate locations in the order in which they are tried: the one
/// beside the executable first, then the one under the home directory, each
/// only where it is known. A later candidate takes priority over an earlier one.
pub fn candidate_order<T>(adjacent: Option<T>, home: Option<T>) -> (r: Vec<T>)
    ensures
        r@ == present(adjacent) + present(home),
{
    let mut r: Vec<T> = Vec::new();
    match adjacent {
        Some(a) => r.push(a),
        None => {},
    }
    match home {
        Some(h) => r.push(h),
        None => {},
    }
    proof {
        assert(r@ =~= present(adjacent) + present(home));
    }
    r
}

/// A `c` with no malformed probe before it, which is the end or a malformed
/// probe, is the cutoff.
proof fn lemma_cutoff_at<T>(probes: Seq<Probe<T>>, c: int, i: int)
    requires
        0 <= i <= c <= probes.len(),
        c == probes.len() || probes[c] is Malformed,
        forall|j: int| 0 <= j < c ==> !(#[trigger] probes[j] is Malformed),
    ensures
        cutoff_from(probes, i) == c,
    decreases c - i,
{
    if i < c {
        lemma_cutoff_at(probes, c, i + 1);
    }
}

/// The cutoff lies within the probes, no malformed probe precedes it, and it is
/// the end or a malformed probe.
proof fn lemma_cutoff_bounds<T>(probes: Seq<Probe<T>>, i: int)
    requires
        0 <= i <= probes.len(),
        forall|j: int| 0 <= j < i ==> !(#[trigger] probes[j] is Malformed),
    ensures
        i <= cutoff_from(probes, i) <= probes.len(),
        cutoff_from(probes, i) == probes.len() || probes[cutoff_from(probes, i)] is Malformed,
        forall|j: int| 0 <= j < cutoff_from(probes, i) ==> !(#[trigger] probes[j] is Malformed),
    decreases probes.len() - i,
{
    if i < probes.len() && !(probes[i] is Malformed) {
        lemma_cutoff_bounds(probes, i + 1);
    }
}

/// Probes that agree on their first `n` entries agree on the last loaded one
/// among them.
proof fn lemma_last_loaded_agree<T>(defaults: T, s: Seq<Probe<T>>, u: Seq<Probe<T>>, n: int)
    requires
        0 <= n <= s.len(),
        n <= u.len(),
        forall|k: int| 0 <= k < n ==> s[k] == u[k],
    ensures
        last_loaded(defaults, s, n) == last_loaded(defaults, u, n),
    decreases n,
{
    if n > 0 {
        lemma_last_loaded_agree(defaults, s, u, n - 1);
    }
}

/// Probes every candidate in order and settles on the parameters to use: each
/// file that parsed replaces what was accumulated, a file that could not be
/// read is skipped, and the first malformed file ends the search with what had
/// been accumulated until then.
pub fn resolve<T: Copy>(defaults: T, probes: &Vec<Probe<T>>) -> (r: Resolution<T>)
    ensures
        r@ == settle(defaults, probes@),
{
    let mut params = defaults;
    let mut source: Option<usize> = None;
    let mut i: usize = 0;
    while i < probes.len()
        invariant_except_break
            0 <= i <= probes@.len(),
            forall|j: int| 0 <= j < i ==> !(#[trigger] probes@[j] is Malformed),
            (Resolution { params, source })@ == last_loaded(defaults, probes@, i as int),
        ensures
            0 <= i <= probes@.len(),
            i == probes@.len() || probes@[i as int] is Malformed,
            forall|j: int| 0 <= j < i ==> !(#[trigger] probes@[j] is Malformed),
            (Resolution { params, source })@ == last_loaded(defaults, probes@, i as int),
        decreases probes.len() - i,
    {
        match &probes[i] {
            Probe::Unreadable => {},
            Probe::Malformed => {
                break;
            },
            Probe::Loaded(p) => {
                params = *p;
                source = Some(i);
            },
        }
        i = i + 1;
    }
    proof {
        lemma_cutoff_at(probes@, i as int, 0);
    }
    Resolution { params, source }
}

/// With no candidate file loaded (each one missing or unreadable), the built-in
/// defaults stand and no file is named as their source.
pub proof fn lemma_no_file_keeps_defaults<T>(defaults: T, probes: Seq<Probe<T>>)
    requires
        forall|j: int| 0 <= j < probes.len() ==> #[trigger] probes[j] is Unreadable,
    ensures
        settle(defaults, probes) == (defaults, Option::<int>::None),
{
    lemma_cutoff_at(probes, probes.len() as int, 0);
    let n = probes.len() as int;
    assert forall|m: int| 0 <= m <= n implies last_loaded(defaults, probes, m) == (
    defaults,
    Option::<int>::None,
    ) by {
        lemma_unloaded_prefix(defaults, probes, m);
    }
}

/// When none of the first `n` probes loaded, the last loaded one among them is
/// the defaults.
proof fn lemma_unloaded_prefix<T>(defaults: T, probes: Seq<Probe<T>>, n: int)
    requires
        0 <= n <= probes.len(),
        forall|j: int| 0 <= j < n ==> !(#[trigger] probes[j] is Loaded),
    ensures
        last_loaded(defaults, probes, n) == (defaults, Option::<int>::None),
    decreases n,
{
    if n > 0 {
        lemma_unloaded_prefix(defaults, probes, n - 1);
    }
}

/// A valid file beside the executable supplies the parameters when the home
/// candidate could not be read, or when no home directory is known.
pub proof fn lemma_adjacent_file_used<T>(defaults: T, adjacent: T, home: Option<Probe<T>>)
    requires
        home matches Some(h) ==> h is Unreadable,
    ensures
        settle(defaults, seq![loaded(adjacent)] + present(home)) == (adjacent, Some(0int)),
{
    let probes = seq![loaded(adjacent)] + present(home);
    assert(probes[0] == loaded(adjacent));
    if let Some(h) = home {
        assert(probes[1] == h);
    }
    lemma_cutoff_at(probes, probes.len() as int, 0);
    assert(last_loaded(defaults, probes, 1) == (adjacent, Some(0int)));
}

/// A valid file under the home directory overrides a valid file beside the
/// executable.
pub proof fn lemma_home_file_overrides<T>(defaults: T, adjacent: T, home: T)
    ensures
        settle(defaults, seq![loaded(adjacent), loaded(home)]) == (home, Some(1int)),
{
    let probes = seq![loaded(adjacent), loaded(home)];
    lemma_cutoff_at(probes, 2, 0);
}

/// A malformed file, wherever it stands, leaves the parameters as the files
/// before it had settled them, whatever follows it.
pub proof fn lemma_malformed_file_falls_back<T>(
    defaults: T,
    before: Seq<Probe<T>>,
    after: Seq<Probe<T>>,
)
    ensures
        settle(defaults, before + seq![Probe::Malformed] + after) == settle(defaults, before),
{
    let probes = before + seq![Probe::Malformed] + after;
    lemma_cutoff_bounds(before, 0);
    let c = cutoff(before);
    assert forall|j: int| 0 <= j < c implies !(#[trigger] probes[j] is Malformed) by {
        assert(probes[j] == before[j]);
    }
    if c < before.len() {
        assert(probes[c] == before[c]);
    } else {
        assert(probes[c] is Malformed);
    }
    lemma_cutoff_at(probes, c, 0);
    assert forall|k: int| 0 <= k < c implies before[k] == probes[k] by {}
    lemma_last_loaded_agree(defaults, before, probes, c);
}

} // verus!
