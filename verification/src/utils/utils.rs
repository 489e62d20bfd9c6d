//! The clock, and the choice of processor cores.

use crate::utils::text::{lowered, lowered_equals, parse_usize, parsed_usize};
use vstd::prelude::*;
use vstd::utf8::encode_utf8;

verus! {

/// The time of the system clock by `std::time::SystemTime::now`, in whole
/// nanoseconds since the Unix epoch; 0 for a clock that stands before the
/// epoch. Nothing is claimed of the value.
#[verifier::external_body]
pub(crate) fn unix_nanos() -> u64 {
    match std::time::SystemTime::now().duration_since(std::time::UNIX_EPOCH) {
        Ok(d) => d.as_nanos() as u64,
        Err(_) => 0,
    }
}

/// The numbers of the cores on which the thread may run, by
/// `core_affinity::get_core_ids`, in the order in which that function gives
/// them; none where it cannot tell. Nothing is claimed of the numbers.
#[verifier::external_body]
pub(crate) fn available_cores() -> Vec<usize> {
    match core_affinity::get_core_ids() {
        Some(cores) => cores.iter().map(|c| c.id).collect(),
        None => Vec::new(),
    }
}

/// The number of processors that `num_cpus::get` counts. Nothing is claimed
/// of the number.
#[verifier::external_body]
pub(crate) fn cpu_count() -> usize {
    num_cpus::get()
}

/// One element of a list, picked by `choose` of `rand` with the thread's
/// generator: some element of the list, whichever, and none only of an
/// empty list.
#[verifier::external_body]
pub(crate) fn choose_core(cores: &Vec<usize>) -> (r: Option<usize>)
    ensures
        r is None <==> cores@.len() == 0,
        r matches Some(c) ==> cores@.contains(c),
{
    match rand::seq::IndexedRandom::choose(cores.as_slice(), &mut rand::rng()) {
        Some(c) => Some(*c),
        None => None,
    }
}

/// Why a choice of cores is refused.
#[derive(Clone, Copy, Debug, PartialEq, Eq, Structural)]
pub enum CpuModeError {
    /// The machine names no core to run on.
    NoCores,
    /// A field of the list is no number.
    ParseNumber,
    /// A number of the list names no core.
    UnknownCore,
}

/// The text `all`.
pub open spec fn word_all() -> Seq<u8> {
    seq![0x61u8, 0x6c, 0x6c]
}

/// The text `random`.
pub open spec fn word_random() -> Seq<u8> {
    seq![0x72u8, 0x61, 0x6e, 0x64, 0x6f, 0x6d]
}

/// The fields of a text between separators. A text without separator is
/// one field; so is the empty text.
pub open spec fn fields_of(s: Seq<u8>, separator: u8) -> Seq<Seq<u8>>
    decreases s.len(),
{
    if s.len() == 0 {
        seq![Seq::empty()]
    } else {
        let rest = fields_of(s.drop_last(), separator);
        if s.last() == separator {
            rest.push(Seq::empty())
        } else {
            rest.update(rest.len() - 1, rest.last().push(s.last()))
        }
    }
}

/// A text has at least one field.
pub proof fn lemma_fields_of_nonempty(s: Seq<u8>, separator: u8)
    ensures
        fields_of(s, separator).len() >= 1,
    decreases s.len(),
{
    if s.len() > 0 {
        lemma_fields_of_nonempty(s.drop_last(), separator);
    }
}

/// The cores that a list of fields names, each field a position in the list
/// of the machine's cores, or the reason why the first field that names none
/// is refused. A position counts only where it does not exceed the number of
/// the last core.
pub open spec fn listed_cores(fields: Seq<Seq<u8>>, cores: Seq<usize>) -> Result<
    Seq<usize>,
    CpuModeError,
>
    decreases fields.len(),
{
    if fields.len() == 0 {
        Ok(Seq::empty())
    } else {
        match listed_cores(fields.drop_last(), cores) {
            Err(e) => Err(e),
            Ok(chosen) => match parsed_usize(fields.last()) {
                None => Err(CpuModeError::ParseNumber),
                Some(n) => if n <= cores.last() && n < cores.len() {
                    Ok(chosen.push(cores[n as int]))
                } else {
                    Err(CpuModeError::UnknownCore)
                },
            },
        }
    }
}

/// The cores that a mode selects among the cores of the machine: all of
/// them for `all`, the one picked for `random`, else those at the positions
/// that the mode lists between commas.
pub open spec fn selected_cores(mode: Seq<u8>, cores: Seq<usize>, pick: usize) -> Result<
    Seq<usize>,
    CpuModeError,
> {
    if cores.len() == 0 {
        Err(CpuModeError::NoCores)
    } else if lowered(mode) == word_all() {
        Ok(cores)
    } else if lowered(mode) == word_random() {
        Ok(seq![pick])
    } else {
        listed_cores(fields_of(mode, 0x2c), cores)
    }
}

/// What a result holds, the list taken as a sequence.
pub open spec fn cores_view(r: Result<Vec<usize>, CpuModeError>) -> Result<
    Seq<usize>,
    CpuModeError,
> {
    match r {
        Ok(v) => Ok(v@),
        Err(e) => Err(e),
    }
}

/// Cuts a text into the fields between separators.
pub fn split_fields(text: &[u8], separator: u8) -> (r: Vec<Vec<u8>>)
    ensures
        r@.len() == fields_of(text@, separator).len(),
        forall|i: int| 0 <= i < r@.len() ==> (#[trigger] r@[i])@ == fields_of(text@, separator)[i],
{
    let mut done: Vec<Vec<u8>> = Vec::new();
    let mut current: Vec<u8> = Vec::new();
    let mut i: usize = 0;
    while i < text.len()
        invariant
            i <= text@.len(),
            fields_of(text@.subrange(0, i as int), separator).len() == done@.len() + 1,
            forall|j: int|
                0 <= j < done@.len() ==> (#[trigger] done@[j])@ == fields_of(
                    text@.subrange(0, i as int),
                    separator,
                )[j],
            current@ == fields_of(text@.subrange(0, i as int), separator).last(),
        decreases text@.len() - i,
    {
        proof {
            assert(text@.subrange(0, i + 1).drop_last() =~= text@.subrange(0, i as int));
        }
        if text[i] == separator {
            done.push(current);
            current = Vec::new();
        } else {
            current.push(text[i]);
        }
        i = i + 1;
    }
    proof {
        assert(text@.subrange(0, text@.len() as int) =~= text@);
    }
    done.push(current);
    done
}

/// The cores that a mode selects among the cores of the machine, `pick`
/// being the core to take where the mode leaves the choice open.
pub fn select_cores(cpu_mode: &[u8], cores: &Vec<usize>, pick: usize) -> (r: Result<
    Vec<usize>,
    CpuModeError,
>)
    ensures
        cores_view(r) == selected_cores(cpu_mode@, cores@, pick),
        r matches Ok(chosen) ==> chosen@.len() > 0,
{
    proof {
        lemma_fields_of_nonempty(cpu_mode@, 0x2c);
        lemma_listed_cores_len(fields_of(cpu_mode@, 0x2c), cores@);
    }
    if cores.len() == 0 {
        return Err(CpuModeError::NoCores);
    }
    let all: [u8; 3] = [0x61, 0x6c, 0x6c];
    let random: [u8; 6] = [0x72, 0x61, 0x6e, 0x64, 0x6f, 0x6d];
    proof {
        assert(all@ =~= word_all());
        assert(random@ =~= word_random());
    }
    if lowered_equals(cpu_mode, all.as_slice()) {
        return Ok(cores.clone());
    }
    if lowered_equals(cpu_mode, random.as_slice()) {
        let mut one: Vec<usize> = Vec::new();
        one.push(pick);
        proof {
            assert(one@ =~= seq![pick]);
        }
        return Ok(one);
    }
    let fields = split_fields(cpu_mode, 0x2c);
    let ghost names = fields_of(cpu_mode@, 0x2c);
    let cores_max = cores[cores.len() - 1];
    let mut result: Vec<usize> = Vec::new();
    let mut i: usize = 0;
    while i < fields.len()
        invariant
            i <= fields@.len(),
            fields@.len() == names.len(),
            forall|j: int| 0 <= j < fields@.len() ==> (#[trigger] fields@[j])@ == names[j],
            cores@.len() > 0,
            cores_max == cores@.last(),
            selected_cores(cpu_mode@, cores@, pick) == listed_cores(names, cores@),
            listed_cores(names.subrange(0, i as int), cores@) == Ok::<Seq<usize>, CpuModeError>(
                result@,
            ),
        decreases fields@.len() - i,
    {
        proof {
            assert(names.subrange(0, i + 1).drop_last() =~= names.subrange(0, i as int));
            assert(names.subrange(0, i + 1).last() == fields@[i as int]@);
        }
        match parse_usize(fields[i].as_slice()) {
            None => {
                proof {
                    lemma_listed_cores_error(names, cores@, i + 1);
                }
                return Err(CpuModeError::ParseNumber);
            },
            Some(n) => {
                if n <= cores_max && n < cores.len() {
                    result.push(cores[n]);
                } else {
                    proof {
                        lemma_listed_cores_error(names, cores@, i + 1);
                    }
                    return Err(CpuModeError::UnknownCore);
                }
            },
        }
        i = i + 1;
    }
    proof {
        assert(names.subrange(0, names.len() as int) =~= names);
    }
    Ok(result)
}

/// A list that is accepted names one core for each of its fields.
pub proof fn lemma_listed_cores_len(fields: Seq<Seq<u8>>, cores: Seq<usize>)
    ensures
        listed_cores(fields, cores) matches Ok(chosen) ==> chosen.len() == fields.len(),
    decreases fields.len(),
{
    if fields.len() > 0 {
        lemma_listed_cores_len(fields.drop_last(), cores);
    }
}

/// Once a field is refused, the whole list is, for the same reason.
pub proof fn lemma_listed_cores_error(fields: Seq<Seq<u8>>, cores: Seq<usize>, n: int)
    requires
        0 <= n <= fields.len(),
        listed_cores(fields.subrange(0, n), cores) is Err,
    ensures
        listed_cores(fields, cores) == listed_cores(fields.subrange(0, n), cores),
    decreases fields.len() - n,
{
    if n < fields.len() {
        assert(fields.subrange(0, n + 1).drop_last() =~= fields.subrange(0, n));
        lemma_listed_cores_error(fields, cores, n + 1);
    } else {
        assert(fields.subrange(0, n) =~= fields);
    }
}

/// The cores on which the workers are to run, as the mode selects them
/// among the cores of this machine: all of them for `all`, one of them for
/// `random`, else those at the positions that the mode lists.
pub fn cpu_mode_to_cpu_cores(cpu_mode: String) -> (r: Result<Vec<usize>, CpuModeError>)
    ensures
        exists|cores: Seq<usize>, pick: usize|
            cores_view(r) == #[trigger] selected_cores(encode_utf8(cpu_mode@), cores, pick) && (
            cores.len() > 0 ==> cores.contains(pick)),
        r matches Ok(chosen) ==> chosen@.len() > 0,
{
    let cores = available_cores();
    let pick = match choose_core(&cores) {
        Some(c) => c,
        None => 0,
    };
    select_cores(cpu_mode.as_str().as_bytes(), &cores, pick)
}

} // verus!
