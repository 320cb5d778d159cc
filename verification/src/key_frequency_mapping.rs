use vstd::prelude::*;
use vstd::arithmetic::div_mod::{
    lemma_div_plus_one, lemma_fundamental_div_mod, lemma_fundamental_div_mod_converse,
    lemma_mod_add_multiples_vanish,
};
use crate::error::Error;
use crate::keyboard_mapping::{KeyMapping, KeyMappings, KeyboardMapping};
use crate::scale::Scale;
use crate::u7::{KeyNumber, U7};

verus! {

/// The number of MIDI keys.
pub const KEY_COUNT: usize = 128;

/// What one key of an equave plays: a degree of the scale (0 being the
/// unison), or nothing.
#[derive(Clone, Copy, Debug, PartialEq, Eq, Structural)]
pub enum IntervalInfo {
    Mapping { degree: usize },
    Unmapped,
}

/// A mapping entry that names a degree a scale of `n` degrees lacks.
pub open spec fn degree_missing(n: nat, k: KeyMapping) -> bool {
    k matches KeyMapping::Degree(d) && d >= n
}

/// The degree a mapping entry names (0 for an unmapped key).
pub open spec fn named_degree(k: KeyMapping) -> usize {
    match k {
        KeyMapping::Degree(d) => d,
        KeyMapping::Unmapped => 0,
    }
}

pub open spec fn info_of(k: KeyMapping) -> IntervalInfo {
    match k {
        KeyMapping::Degree(d) => IntervalInfo::Mapping { degree: d },
        KeyMapping::Unmapped => IntervalInfo::Unmapped,
    }
}

/// The keys of one equave, for a scale of `n` degrees counting the unison.
pub open spec fn interval_infos(n: nat, m: KeyMappings) -> Seq<IntervalInfo> {
    match m {
        KeyMappings::Linear => Seq::new(n, |d: int| IntervalInfo::Mapping { degree: d as usize }),
        KeyMappings::Custom(v) => Seq::new(v@.len(), |i: int| info_of(v@[i])),
    }
}

/// Entry `i` of `v` is the first that names a degree a scale of `n` degrees
/// lacks.
pub open spec fn first_missing_at(n: nat, v: Seq<KeyMapping>, i: int) -> bool {
    &&& 0 <= i < v.len()
    &&& degree_missing(n, v[i])
    &&& forall|j: int| 0 <= j < i ==> !degree_missing(n, #[trigger] v[j])
}

/// What selecting the degrees of a scale of `n` degrees by `m` gives.
pub open spec fn select_result(n: nat, m: KeyMappings) -> Result<Seq<IntervalInfo>, Error> {
    match m {
        KeyMappings::Linear => Ok(interval_infos(n, m)),
        KeyMappings::Custom(v) => if exists|i: int| first_missing_at(n, v@, i) {
            let i = choose|i: int| first_missing_at(n, v@, i);
            Err(Error::DegreeNotInScale(named_degree(v@[i])))
        } else {
            Ok(interval_infos(n, m))
        },
    }
}

/// The equave key `key` falls in, counted in keys from `zero`.
pub open spec fn slot_of(infos: Seq<IntervalInfo>, zero: int, key: int) -> IntervalInfo {
    infos[(key - zero) % (infos.len() as int)]
}

/// A key, the degree it plays and the number of equaves between it and the
/// reference key (rounded down).
#[derive(Clone, Copy, Debug, PartialEq, Eq, Structural)]
pub struct KeyDegreeMapping {
    pub key: KeyNumber,
    pub degree: usize,
    pub equave: i32,
}

impl View for KeyDegreeMapping {
    type V = (u8, usize, int);

    open spec fn view(&self) -> (u8, usize, int) {
        (self.key.value(), self.degree, self.equave as int)
    }
}

pub open spec fn view_all(s: Seq<Option<KeyDegreeMapping>>) -> Seq<Option<(u8, usize, int)>> {
    Seq::new(
        s.len(),
        |i: int|
            match s[i] {
                Some(m) => Some(m@),
                None => None,
            },
    )
}

/// What every key plays, given the equave pattern `infos` anchored at `zero`
/// and the reference key `reference`.
pub open spec fn key_degrees(infos: Seq<IntervalInfo>, zero: int, reference: int) -> Seq<
    Option<(u8, usize, int)>,
> {
    Seq::new(
        KEY_COUNT as nat,
        |i: int|
            match slot_of(infos, zero, i) {
                IntervalInfo::Mapping { degree } => Some(
                    (i as u8, degree, (i - reference) / (infos.len() as int)),
                ),
                IntervalInfo::Unmapped => None,
            },
    )
}

/// What assigning the keys of a scale of `n` degrees gives.
pub open spec fn compute_all_result(n: nat, m: KeyMappings, zero: int, reference: int) -> Result<
    Seq<Option<(u8, usize, int)>>,
    Error,
> {
    match select_result(n, m) {
        Err(e) => Err(e),
        Ok(infos) => if slot_of(infos, zero, reference) is Unmapped {
            Err(Error::ReferenceKeyNotMapped)
        } else {
            Ok(key_degrees(infos, zero, reference))
        },
    }
}

/// The values present in `s`, in order.
pub open spec fn present<T>(s: Seq<Option<T>>) -> Seq<T>
    decreases s.len(),
{
    if s.len() == 0 {
        Seq::empty()
    } else {
        let rest = present(s.drop_last());
        match s.last() {
            Some(x) => rest.push(x),
            None => rest,
        }
    }
}

/// Mapping entries that cannot be laid out: a custom pattern needs at least
/// one key.
pub open spec fn has_keys(m: KeyMappings) -> bool {
    !(m matches KeyMappings::Custom(v) && v@.len() == 0)
}

/// The Euclidean quotient and remainder of `a` by `b`.
fn div_rem_euclid(a: i32, b: usize) -> (r: (i32, usize))
    requires
        -255 <= a <= 255,
        b > 0,
    ensures
        r.0 as int == (a as int) / (b as int),
        r.1 as int == (a as int) % (b as int),
        r.1 < b,
{
    if a >= 0 {
        let p = a as usize;
        let q = p / b;
        let m = p % b;
        proof {
            lemma_fundamental_div_mod(p as int, b as int);
            assert(q <= p) by (nonlinear_arith)
                requires
                    q == p / b,
                    b > 0,
            ;
        }
        (q as i32, m)
    } else {
        let p = (-a) as usize;
        let q = p / b;
        let m = p % b;
        proof {
            lemma_fundamental_div_mod(p as int, b as int);
            assert(q <= p) by (nonlinear_arith)
                requires
                    q == p / b,
                    b > 0,
            ;
        }
        if m == 0 {
            proof {
                assert(a as int == (-(q as int)) * (b as int) + 0) by (nonlinear_arith)
                    requires
                        p as int == (b as int) * (q as int) + 0,
                        a as int == -(p as int),
                ;
                lemma_fundamental_div_mod_converse(a as int, b as int, -(q as int), 0);
            }
            (-(q as i32), 0)
        } else {
            proof {
                assert(a as int == (-(q as int) - 1) * (b as int) + (b - m)) by (nonlinear_arith)
                    requires
                        p as int == (b as int) * (q as int) + (m as int),
                        a as int == -(p as int),
                ;
                lemma_fundamental_div_mod_converse(a as int, b as int, -(q as int) - 1, (b - m) as int);
            }
            (-(q as i32) - 1, b - m)
        }
    }
}

impl IntervalInfo {
    /// The degrees the keys of one equave play, for a scale of `n` degrees
    /// counting the unison. Fails at the first mapping entry that names a
    /// degree the scale lacks.
    pub fn select(n: usize, key_mappings: &KeyMappings) -> (r: Result<Vec<IntervalInfo>, Error>)
        ensures
            match select_result(n as nat, *key_mappings) {
                Ok(infos) => r matches Ok(v) && v@ == infos,
                Err(e) => r == Err::<Vec<IntervalInfo>, Error>(e),
            },
    {
        match key_mappings {
            KeyMappings::Linear => {
                let mut infos: Vec<IntervalInfo> = Vec::new();
                let mut d: usize = 0;
                while d < n
                    invariant
                        d <= n,
                        infos@ == Seq::new(
                            d as nat,
                            |j: int| IntervalInfo::Mapping { degree: j as usize },
                        ),
                    decreases n - d,
                {
                    infos.push(IntervalInfo::Mapping { degree: d });
                    d = d + 1;
                }
                Ok(infos)
            },
            KeyMappings::Custom(v) => {
                let mut infos: Vec<IntervalInfo> = Vec::new();
                let mut i: usize = 0;
                while i < v.len()
                    invariant
                        *key_mappings == KeyMappings::Custom(*v),
                        i <= v@.len(),
                        infos@ == Seq::new(i as nat, |j: int| info_of(v@[j])),
                        forall|j: int| 0 <= j < i ==> !degree_missing(n as nat, #[trigger] v@[j]),
                    decreases v.len() - i,
                {
                    match v[i] {
                        KeyMapping::Degree(d) => {
                            if d >= n {
                                proof {
                                    assert(v@[i as int] == KeyMapping::Degree(d));
                                    assert(first_missing_at(n as nat, v@, i as int));
                                    let k = choose|k: int| first_missing_at(n as nat, v@, k);
                                    if k < i {
                                        assert(!degree_missing(n as nat, v@[k]));
                                    } else if k > i {
                                        assert(!degree_missing(n as nat, v@[i as int]));
                                    }
                                    assert(k == i);
                                    assert(select_result(n as nat, *key_mappings) == Err::<
                                        Seq<IntervalInfo>,
                                        Error,
                                    >(Error::DegreeNotInScale(d)));
                                }
                                return Err(Error::DegreeNotInScale(d));
                            }
                            infos.push(IntervalInfo::Mapping { degree: d });
                        },
                        KeyMapping::Unmapped => {
                            infos.push(IntervalInfo::Unmapped);
                        },
                    }
                    i = i + 1;
                }
                proof {
                    assert(!exists|k: int| first_missing_at(n as nat, v@, k));
                }
                Ok(infos)
            },
        }
    }
}

impl KeyDegreeMapping {
    /// What each of the 128 keys plays (`None` for an unmapped key), for a
    /// scale whose unison sounds at `zero_key` and with reference key
    /// `reference_key`. Fails when a mapping entry names a degree the scale
    /// lacks, or when the reference key plays nothing.
    pub fn compute_all(
        scale: &Scale,
        zero_key: KeyNumber,
        reference_key: KeyNumber,
        key_mappings: &KeyMappings,
    ) -> (r: Result<Vec<Option<KeyDegreeMapping>>, Error>)
        requires
            has_keys(*key_mappings),
        ensures
            match compute_all_result(
                scale.spec_intervals().len(),
                *key_mappings,
                zero_key.value() as int,
                reference_key.value() as int,
            ) {
                Ok(s) => r matches Ok(v) && view_all(v@) == s,
                Err(e) => r == Err::<Vec<Option<KeyDegreeMapping>>, Error>(e),
            },
    {
        let n = scale.intervals().len();
        let infos = IntervalInfo::select(n, key_mappings)?;
        let keys_per_equave = infos.len();
        assert(keys_per_equave > 0);
        let zero = zero_key.to_u8() as i32;
        let reference = reference_key.to_u8() as i32;
        let (_, reference_slot) = div_rem_euclid(reference - zero, keys_per_equave);
        if infos[reference_slot] == IntervalInfo::Unmapped {
            return Err(Error::ReferenceKeyNotMapped);
        }
        let ghost expected = key_degrees(infos@, zero as int, reference as int);
        let mut result: Vec<Option<KeyDegreeMapping>> = Vec::new();
        let mut i: usize = 0;
        while i < KEY_COUNT
            invariant
                i <= KEY_COUNT,
                keys_per_equave == infos@.len(),
                keys_per_equave > 0,
                0 <= zero < 128,
                0 <= reference < 128,
                expected == key_degrees(infos@, zero as int, reference as int),
                view_all(result@) == expected.subrange(0, i as int),
            decreases KEY_COUNT - i,
        {
            let key = i as i32;
            let (_, slot) = div_rem_euclid(key - zero, keys_per_equave);
            let ghost before = result@;
            match infos[slot] {
                IntervalInfo::Mapping { degree } => {
                    let (equave, _) = div_rem_euclid(key - reference, keys_per_equave);
                    let key_number = KeyNumber::from_u8_lossy(i as u8);
                    result.push(Some(KeyDegreeMapping { key: key_number, degree, equave }));
                },
                IntervalInfo::Unmapped => {
                    result.push(None);
                },
            }
            assert(view_all(result@) =~= expected.subrange(0, i + 1)) by {
                assert(view_all(before) == expected.subrange(0, i as int));
                assert(view_all(before).len() == i);
                assert(before.len() == i);
                assert forall|j: int| 0 <= j < i implies view_all(result@)[j] == expected[j] by {
                    assert(result@[j] == before[j]);
                    assert(view_all(before)[j] == expected[j]);
                }
            }
            i = i + 1;
        }
        assert(expected.subrange(0, KEY_COUNT as int) =~= expected);
        Ok(result)
    }

    /// What each key from the keyboard mapping's first key to its last
    /// plays, leaving out the keys that play nothing.
    pub fn compute<F>(scale: &Scale, keyboard_mapping: &KeyboardMapping<F>) -> (r: Result<
        Vec<KeyDegreeMapping>,
        Error,
    >)
        requires
            has_keys(keyboard_mapping.spec_key_mappings()),
        ensures
            match compute_all_result(
                scale.spec_intervals().len(),
                keyboard_mapping.spec_key_mappings(),
                keyboard_mapping.spec_reference().spec_zero_key() as int,
                keyboard_mapping.spec_reference().spec_reference_key() as int,
            ) {
                Ok(s) => r matches Ok(v) && v@.map_values(|m: KeyDegreeMapping| m@) == present(
                    s.subrange(
                        keyboard_mapping.spec_start_key() as int,
                        keyboard_mapping.spec_end_key() + 1,
                    ),
                ),
                Err(e) => r == Err::<Vec<KeyDegreeMapping>, Error>(e),
            },
    {
        let start = keyboard_mapping.start_key().to_u8() as usize;
        let end = keyboard_mapping.end_key().to_u8() as usize;
        let reference = keyboard_mapping.reference();
        let all = match Self::compute_all(
            scale,
            reference.zero_key(),
            reference.reference_key(),
            keyboard_mapping.key_mappings(),
        ) {
            Ok(all) => all,
            Err(e) => return Err(e),
        };
        assert(view_all(all@).len() == 128);
        let ghost s = view_all(all@);
        let mut result: Vec<KeyDegreeMapping> = Vec::new();
        let mut i: usize = start;
        while i <= end
            invariant
                start <= i <= end + 1,
                end < 128,
                all@.len() == 128,
                s == view_all(all@),
                result@.map_values(|m: KeyDegreeMapping| m@) == present(
                    s.subrange(start as int, i as int),
                ),
            decreases end + 1 - i,
        {
            let ghost before = result@;
            assert(s.subrange(start as int, i + 1).drop_last() =~= s.subrange(
                start as int,
                i as int,
            ));
            match all[i] {
                Some(m) => {
                    result.push(m);
                    assert(result@.map_values(|m: KeyDegreeMapping| m@) =~= before.map_values(
                        |m: KeyDegreeMapping| m@,
                    ).push(m@));
                },
                None => {},
            }
            i = i + 1;
        }
        Ok(result)
    }
}

/// Keys one equave apart play the same degree (or are both unmapped), the
/// higher one equave up.
pub proof fn law_keys_repeat_every_equave(
    n: nat,
    m: KeyMappings,
    zero: int,
    reference: int,
    i: int,
)
    requires
        n > 0,
        has_keys(m),
        compute_all_result(n, m, zero, reference) is Ok,
        0 <= i,
        i + interval_infos(n, m).len() < KEY_COUNT,
    ensures
        ({
            let s = compute_all_result(n, m, zero, reference)->Ok_0;
            let k = interval_infos(n, m).len() as int;
            &&& (s[i] is None <==> s[i + k] is None)
            &&& s[i] matches Some((key, degree, equave)) ==> s[i + k] == Some(
                ((i + k) as u8, degree, equave + 1),
            )
        }),
{
    let infos = interval_infos(n, m);
    let k = infos.len() as int;
    lemma_mod_add_multiples_vanish(i - zero, k);
    lemma_div_plus_one(i - reference, k);
    assert(i + k - zero == k + (i - zero));
    assert(i + k - reference == k + (i - reference));
}

/// The reference key is mapped and lies in equave 0.
pub proof fn law_reference_key_in_equave_zero(n: nat, m: KeyMappings, zero: int, reference: int)
    requires
        n > 0,
        has_keys(m),
        compute_all_result(n, m, zero, reference) is Ok,
        0 <= reference < KEY_COUNT,
    ensures
        compute_all_result(n, m, zero, reference)->Ok_0[reference] matches Some((key, _, equave))
            && key == reference && equave == 0,
{
    let k = interval_infos(n, m).len() as int;
    assert(0int / k == 0);
}

/// With a linear mapping the zero key plays the unison, degree 0.
pub proof fn law_linear_zero_key_plays_unison(n: nat, zero: int, reference: int)
    requires
        n > 0,
        0 <= zero < KEY_COUNT,
    ensures
        compute_all_result(n, KeyMappings::Linear, zero, reference) is Ok,
        compute_all_result(n, KeyMappings::Linear, zero, reference)->Ok_0[zero] matches Some(
            (_, degree, _),
        ) && degree == 0,
{
    let k = n as int;
    assert(0int % k == 0);
    let r = reference - zero;
    assert(0 <= r % k < k);
}

/// Present entries of `s` within `lo..hi` whose key is their own index come
/// out with keys in that range, each higher than the one before.
proof fn lemma_present_keys_ascend(s: Seq<Option<(u8, usize, int)>>, lo: int, hi: int)
    requires
        0 <= lo <= hi <= s.len(),
        forall|i: int| lo <= i < hi ==> (#[trigger] s[i] matches Some(x) ==> x.0 == i),
    ensures
        forall|j: int|
            0 <= j < present(s.subrange(lo, hi)).len() ==> lo <= (#[trigger] present(
                s.subrange(lo, hi),
            )[j]).0 < hi,
        forall|j: int, k: int|
            0 <= j < k < present(s.subrange(lo, hi)).len() ==> (#[trigger] present(
                s.subrange(lo, hi),
            )[j]).0 < (#[trigger] present(s.subrange(lo, hi))[k]).0,
    decreases hi - lo,
{
    if lo < hi {
        lemma_present_keys_ascend(s, lo, hi - 1);
        let t = s.subrange(lo, hi);
        let prev = present(s.subrange(lo, hi - 1));
        assert(t.drop_last() =~= s.subrange(lo, hi - 1));
        assert(t.last() == s[hi - 1]);
        match s[hi - 1] {
            Some(x) => {
                assert(present(t) == prev.push(x));
                assert(x.0 == hi - 1);
                assert forall|j: int| 0 <= j < present(t).len() implies lo <= (
                #[trigger] present(t)[j]).0 < hi by {
                    if j < prev.len() {
                        assert(present(t)[j] == prev[j]);
                    }
                }
                assert forall|j: int, k: int| 0 <= j < k < present(t).len() implies (
                #[trigger] present(t)[j]).0 < (#[trigger] present(t)[k]).0 by {
                    assert(present(t)[j] == prev[j]);
                    if k < prev.len() {
                        assert(present(t)[k] == prev[k]);
                    }
                }
            },
            None => {
                assert(present(t) == prev);
            },
        }
    } else {
        assert(s.subrange(lo, hi).len() == 0);
    }
}

/// The keys that `compute` hands back lie within the mapping's range, each
/// higher than the one before.
pub proof fn law_computed_keys_ascend(
    n: nat,
    m: KeyMappings,
    zero: int,
    reference: int,
    start: int,
    end: int,
)
    requires
        n > 0,
        has_keys(m),
        compute_all_result(n, m, zero, reference) is Ok,
        0 <= start <= end < KEY_COUNT,
    ensures
        ({
            let p = present(compute_all_result(n, m, zero, reference)->Ok_0.subrange(start, end + 1));
            &&& forall|j: int| 0 <= j < p.len() ==> start <= (#[trigger] p[j]).0 <= end
            &&& forall|j: int, k: int| 0 <= j < k < p.len() ==> (#[trigger] p[j]).0 < (#[trigger] p[k]).0
        }),
{
    let s = compute_all_result(n, m, zero, reference)->Ok_0;
    assert forall|i: int| start <= i < end + 1 implies (#[trigger] s[i] matches Some(x) ==> x.0
        == i) by {
        assert(0 <= i < 128);
    }
    lemma_present_keys_ascend(s, start, end + 1);
}

} // verus!
