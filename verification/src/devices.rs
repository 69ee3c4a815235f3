//! Device names out of the listings that `lspci` (Linux) and `wmic` (Windows) print.
use crate::text::{
    lemma_trim_idempotent, chars_of, copy_range, find_from, find_from_exec, lemma_find_from, lines, lines_from,
    next_line, occurs_at, push_string, replace_all, replace_all_exec, string_views, trim, trim_chars,
    chars_equal,
};
use vstd::prelude::*;

verus! {

broadcast use vstd::string::group_string_axioms;

// ---------------------------------------------------------------------------
// Decoding a command's output
// ---------------------------------------------------------------------------

/// The text that `String::from_utf8_lossy` makes of some bytes.
pub uninterp spec fn utf8_lossy(bytes: Seq<u8>) -> Seq<char>;

/// Calls `String::from_utf8_lossy` (and takes the result as an owned `String`).
/// Its result is `utf8_lossy` of the bytes; as its documentation says, bytes that
/// are valid UTF-8 are decoded as they are (the invalid sequences that it replaces
/// are not described here).
#[verifier::external_body]
fn decode_utf8_lossy(bytes: &[u8]) -> (text: String)
    ensures
        text@ == utf8_lossy(bytes@),
        vstd::utf8::valid_utf8(bytes@) ==> text@ == vstd::utf8::decode_utf8(bytes@),
{
    String::from_utf8_lossy(bytes).into_owned()
}

/// The text of a command's output.
pub fn command_output_text(stdout: &[u8]) -> (text: String)
    ensures
        text@ == utf8_lossy(stdout@),
        vstd::utf8::valid_utf8(stdout@) ==> text@ == vstd::utf8::decode_utf8(stdout@),
{
    decode_utf8_lossy(stdout)
}

// ---------------------------------------------------------------------------
// lspci
// ---------------------------------------------------------------------------

/// The kind of device a listing is searched for.
#[derive(Clone, Copy, Debug, PartialEq, Eq, Structural)]
pub enum DeviceClass {
    Gpu,
    Network,
    Audio,
}

/// What separates the slot and class of an `lspci` line from the device's name.
pub open spec fn lspci_separator() -> Seq<char> {
    seq![':', ' ']
}

/// The long vendor name of AMD graphics, as `lspci` writes it.
pub open spec fn amd_ati_vendor() -> Seq<char> {
    "Advanced Micro Devices, Inc. [AMD/ATI]"@
}

/// The long vendor name of AMD, as `lspci` writes it.
pub open spec fn amd_vendor() -> Seq<char> {
    "Advanced Micro Devices, Inc. [AMD]"@
}

/// The short name the long AMD vendor names are replaced with.
pub open spec fn amd_short() -> Seq<char> {
    "AMD"@
}

/// A device's name as it is shown: GPU names get the short AMD vendor name,
/// network names are trimmed, audio names are trimmed and get the short AMD name.
pub open spec fn device_name(class: DeviceClass, name: Seq<char>) -> Seq<char> {
    match class {
        DeviceClass::Gpu => replace_all(name, amd_ati_vendor(), amd_short()),
        DeviceClass::Network => trim(name),
        DeviceClass::Audio => replace_all(
            replace_all(trim(name), amd_ati_vendor(), amd_short()),
            amd_vendor(),
            amd_short(),
        ),
    }
}

/// The name in one `lspci` line: what follows the first ": ", if the line has one.
pub open spec fn lspci_entry(line: Seq<char>, class: DeviceClass) -> Seq<Seq<char>> {
    match find_from(line, lspci_separator(), 0) {
        Some(p) => seq![device_name(class, line.skip(p + 2))],
        None => seq![],
    }
}

/// The names in a sequence of `lspci` lines, in order.
pub open spec fn lspci_names(ls: Seq<Seq<char>>, class: DeviceClass) -> Seq<Seq<char>>
    decreases ls.len(),
{
    if ls.len() == 0 {
        seq![]
    } else {
        lspci_entry(ls[0], class) + lspci_names(ls.drop_first(), class)
    }
}

fn device_name_exec(class: DeviceClass, name: &Vec<char>) -> (shown: Vec<char>)
    ensures
        shown@ == device_name(class, name@),
{
    let amd_ati = chars_of("Advanced Micro Devices, Inc. [AMD/ATI]");
    let amd = chars_of("Advanced Micro Devices, Inc. [AMD]");
    let short = chars_of("AMD");
    proof {
        reveal_strlit("Advanced Micro Devices, Inc. [AMD/ATI]");
        reveal_strlit("Advanced Micro Devices, Inc. [AMD]");
    }
    match class {
        DeviceClass::Gpu => replace_all_exec(name, &amd_ati, &short),
        DeviceClass::Network => trim_chars(name),
        DeviceClass::Audio => {
            let trimmed = trim_chars(name);
            let first = replace_all_exec(&trimmed, &amd_ati, &short);
            replace_all_exec(&first, &amd, &short)
        },
    }
}

/// The names of the devices of one class in the text that `lspci` printed, one for
/// each line that has a ": " in it, in the order of the lines.
pub fn lspci_device_names(text: &str, class: DeviceClass) -> (names: Vec<String>)
    ensures
        string_views(names@) == lspci_names(lines(text@), class),
{
    let chars = chars_of(text);
    let mut separator: Vec<char> = Vec::new();
    separator.push(':');
    separator.push(' ');
    assert(separator@ =~= lspci_separator());
    let mut names: Vec<String> = Vec::new();
    let mut pos: usize = 0;
    assert(string_views(names@) =~= Seq::<Seq<char>>::empty());
    assert(Seq::<Seq<char>>::empty() + lspci_names(lines_from(chars@, 0), class) =~= lspci_names(
        lines(chars@),
        class,
    ));
    while pos < chars.len()
        invariant
            pos <= chars.len(),
            separator@ == lspci_separator(),
            string_views(names@) + lspci_names(lines_from(chars@, pos as int), class)
                == lspci_names(lines(chars@), class),
        decreases chars.len() - pos,
    {
        let (line, next) = next_line(&chars, pos);
        let ghost before = string_views(names@);
        let ghost ls = lines_from(chars@, pos as int);
        proof {
            assert(ls[0] == line@);
            assert(ls.drop_first() =~= lines_from(chars@, next as int));
        }
        let line_len = line.len();
        match find_from_exec(&line, &separator, 0) {
            Some(p) => {
                proof {
                    lemma_find_from(line@, separator@, 0);
                    assert(find_from(line@, separator@, 0) == Some(p as int));
                    assert(occurs_at(line@, separator@, p as int));
                    assert(separator@.len() == 2);
                }
                let rest = copy_range(&line, p + 2, line_len);
                let name = device_name_exec(class, &rest);
                push_string(&mut names, &name);
                proof {
                    assert(lspci_entry(line@, class) == seq![name@]);
                    assert(before + lspci_entry(line@, class) =~= before.push(name@));
                }
            },
            None => {
                assert(lspci_entry(line@, class) =~= Seq::<Seq<char>>::empty());
                assert(before + lspci_entry(line@, class) =~= before);
            },
        }
        proof {
            assert(string_views(names@) + lspci_names(lines_from(chars@, next as int), class) =~= before
                + (lspci_entry(line@, class) + lspci_names(ls.drop_first(), class)));
        }
        pos = next;
    }
    assert(lines_from(chars@, pos as int) =~= Seq::<Seq<char>>::empty());
    assert(string_views(names@) + Seq::<Seq<char>>::empty() =~= string_views(names@));
    names
}

// ---------------------------------------------------------------------------
// wmic
// ---------------------------------------------------------------------------

/// The name in one line of a `wmic` listing: the trimmed line, unless it is empty
/// or is the excluded name.
pub open spec fn wmic_entry(line: Seq<char>, excluded: Option<Seq<char>>) -> Seq<Seq<char>> {
    let name = trim(line);
    if name.len() > 0 && excluded != Some(name) {
        seq![name]
    } else {
        seq![]
    }
}

/// The names in a sequence of `wmic` lines, in order.
pub open spec fn wmic_names_of(ls: Seq<Seq<char>>, excluded: Option<Seq<char>>) -> Seq<Seq<char>>
    decreases ls.len(),
{
    if ls.len() == 0 {
        seq![]
    } else {
        wmic_entry(ls[0], excluded) + wmic_names_of(ls.drop_first(), excluded)
    }
}

/// The names in the text that `wmic` printed: every line after the header line.
pub open spec fn wmic_names(text: Seq<char>, excluded: Option<Seq<char>>) -> Seq<Seq<char>> {
    let ls = lines(text);
    if ls.len() == 0 {
        seq![]
    } else {
        wmic_names_of(ls.drop_first(), excluded)
    }
}

/// The text of an optional string slice.
pub open spec fn optional_text(s: Option<&str>) -> Option<Seq<char>> {
    match s {
        Some(t) => Some(t@),
        None => None,
    }
}

/// The device names in the text that `wmic` printed: each line after the header,
/// trimmed, when it is not empty and not the `excluded` name.
pub fn wmic_device_names(text: &str, excluded: Option<&str>) -> (names: Vec<String>)
    ensures
        string_views(names@) == wmic_names(text@, optional_text(excluded)),
{
    let chars = chars_of(text);
    let ghost ex = optional_text(excluded);
    let mut names: Vec<String> = Vec::new();
    if chars.len() == 0 {
        assert(lines(chars@) =~= Seq::<Seq<char>>::empty());
        assert(string_views(names@) =~= Seq::<Seq<char>>::empty());
        return names;
    }
    let excluded_chars: Option<Vec<char>> = match excluded {
        Some(e) => Some(chars_of(e)),
        None => None,
    };
    let (_header, first) = next_line(&chars, 0);
    let mut pos = first;
    assert(lines(chars@).drop_first() =~= lines_from(chars@, first as int));
    assert(string_views(names@) =~= Seq::<Seq<char>>::empty());
    assert(Seq::<Seq<char>>::empty() + wmic_names_of(lines_from(chars@, first as int), ex)
        =~= wmic_names(chars@, ex));
    while pos < chars.len()
        invariant
            pos <= chars.len(),
            ex == optional_text(excluded),
            match excluded_chars {
                Some(e) => ex == Some(e@),
                None => ex is None,
            },
            string_views(names@) + wmic_names_of(lines_from(chars@, pos as int), ex)
                == wmic_names(chars@, ex),
        decreases chars.len() - pos,
    {
        let (line, next) = next_line(&chars, pos);
        let ghost before = string_views(names@);
        let ghost ls = lines_from(chars@, pos as int);
        proof {
            assert(ls[0] == line@);
            assert(ls.drop_first() =~= lines_from(chars@, next as int));
        }
        let name = trim_chars(&line);
        let keep = if name.len() == 0 {
            false
        } else {
            match &excluded_chars {
                Some(e) => !chars_equal(&name, e),
                None => true,
            }
        };
        if keep {
            push_string(&mut names, &name);
            proof {
                assert(wmic_entry(line@, ex) == seq![name@]);
                assert(before + wmic_entry(line@, ex) =~= before.push(name@));
            }
        } else {
            assert(wmic_entry(line@, ex) =~= Seq::<Seq<char>>::empty());
            assert(before + wmic_entry(line@, ex) =~= before);
        }
        proof {
            assert(string_views(names@) + wmic_names_of(lines_from(chars@, next as int), ex) =~= before
                + (wmic_entry(line@, ex) + wmic_names_of(ls.drop_first(), ex)));
        }
        pos = next;
    }
    assert(lines_from(chars@, pos as int) =~= Seq::<Seq<char>>::empty());
    assert(string_views(names@) + Seq::<Seq<char>>::empty() =~= string_views(names@));
    names
}

// ---------------------------------------------------------------------------
// Laws of the listings
// ---------------------------------------------------------------------------

/// A line of an `lspci` listing that names a device: it has a ": " in it.
pub open spec fn has_separator(line: Seq<char>) -> bool {
    find_from(line, lspci_separator(), 0) is Some
}

/// What follows the first ": " of a line.
pub open spec fn after_separator(line: Seq<char>) -> Seq<char> {
    line.skip(find_from(line, lspci_separator(), 0).unwrap() + 2)
}

/// The test for lines that name a device.
pub open spec fn names_a_device() -> spec_fn(Seq<char>) -> bool {
    |line: Seq<char>| has_separator(line)
}

/// The lines of a listing that name a device, in order.
pub open spec fn device_lines(text: Seq<char>) -> Seq<Seq<char>> {
    lines(text).filter(names_a_device())
}

/// The shown name of the device in a line.
pub open spec fn shown_device(class: DeviceClass) -> spec_fn(Seq<char>) -> Seq<char> {
    |line: Seq<char>| device_name(class, after_separator(line))
}

proof fn lemma_lspci_names_filter(ls: Seq<Seq<char>>, class: DeviceClass)
    ensures
        lspci_names(ls, class) == ls.filter(names_a_device()).map_values(shown_device(class)),
    decreases ls.len(),
{
    reveal(Seq::filter);
    if ls.len() == 0 {
        assert(ls.filter(names_a_device()) =~= Seq::<Seq<char>>::empty());
        assert(ls.filter(names_a_device()).map_values(shown_device(class)) =~= Seq::<
            Seq<char>,
        >::empty());
    } else {
        let rest = ls.drop_first();
        lemma_lspci_names_filter(rest, class);
        assert(seq![ls[0]] + rest =~= ls);
        rest.lemma_filter_prepend(ls[0], names_a_device());
        let head = if has_separator(ls[0]) {
            seq![ls[0]]
        } else {
            Seq::<Seq<char>>::empty()
        };
        assert((head + rest.filter(names_a_device())).map_values(shown_device(class)) =~= head.map_values(
            shown_device(class),
        ) + rest.filter(names_a_device()).map_values(shown_device(class)));
        assert(head.map_values(shown_device(class)) =~= lspci_entry(ls[0], class));
    }
}

/// Every line of an `lspci` listing that has a ": " in it gives exactly one name, in
/// the order of the lines: the `k`-th name is the shown name of what follows the
/// first ": " of the `k`-th such line, and no other line gives a name.
pub proof fn lemma_lspci_device_lines(text: Seq<char>, class: DeviceClass)
    ensures
        lspci_names(lines(text), class).len() == device_lines(text).len(),
        forall|k: int|
            0 <= k < device_lines(text).len() ==> #[trigger] lspci_names(lines(text), class)[k]
                == device_name(class, after_separator(device_lines(text)[k])),
        forall|k: int| 0 <= k < device_lines(text).len() ==> has_separator(#[trigger] device_lines(text)[k]),
{
    lemma_lspci_names_filter(lines(text), class);
    assert forall|k: int| 0 <= k < device_lines(text).len() implies has_separator(
        #[trigger] device_lines(text)[k],
    ) by {
        lines(text).lemma_filter_pred(names_a_device(), k);
    }
}

proof fn lemma_wmic_names_of(ls: Seq<Seq<char>>, excluded: Option<Seq<char>>)
    ensures
        forall|i: int|
            0 <= i < wmic_names_of(ls, excluded).len() ==> {
                let name = #[trigger] wmic_names_of(ls, excluded)[i];
                &&& name.len() > 0
                &&& trim(name) == name
                &&& Some(name) != excluded
                &&& exists|j: int| 0 <= j < ls.len() && name == trim(#[trigger] ls[j])
            },
        forall|j: int|
            0 <= j < ls.len() && trim(#[trigger] ls[j]).len() > 0 && Some(trim(ls[j])) != excluded
                ==> wmic_names_of(ls, excluded).contains(trim(ls[j])),
    decreases ls.len(),
{
    if ls.len() > 0 {
        let rest = ls.drop_first();
        lemma_wmic_names_of(rest, excluded);
        let head = wmic_entry(ls[0], excluded);
        let all = wmic_names_of(ls, excluded);
        let tail = wmic_names_of(rest, excluded);
        assert(all == head + tail);
        lemma_trim_idempotent(ls[0]);
        assert forall|i: int| 0 <= i < all.len() implies {
            let name = #[trigger] all[i];
            &&& name.len() > 0
            &&& trim(name) == name
            &&& Some(name) != excluded
            &&& exists|j: int| 0 <= j < ls.len() && name == trim(#[trigger] ls[j])
        } by {
            if i < head.len() {
                assert(all[i] == trim(ls[0]));
                assert(all[i] == trim(ls[0]));
            } else {
                assert(all[i] == tail[i - head.len()]);
                let j = choose|j: int| 0 <= j < rest.len() && tail[i - head.len()] == trim(#[trigger] rest[j]);
                assert(rest[j] == ls[j + 1]);
            }
        }
        assert forall|j: int|
            0 <= j < ls.len() && trim(#[trigger] ls[j]).len() > 0 && Some(trim(ls[j])) != excluded
            implies all.contains(trim(ls[j])) by {
            if j == 0 {
                assert(all[0] == trim(ls[0]));
            } else {
                assert(rest[j - 1] == ls[j]);
                let k = choose|k: int| 0 <= k < tail.len() && tail[k] == trim(rest[j - 1]);
                assert(all[head.len() + k] == tail[k]);
            }
        }
    }
}

/// The names of a `wmic` listing are the non-empty trimmed lines after the header,
/// never the excluded name: each name is trimmed, not empty, not the excluded name,
/// and is a trimmed line after the header; and every line after the header whose
/// trimmed text is not empty and not the excluded name gives a name.
pub proof fn lemma_wmic_names(text: Seq<char>, excluded: Option<Seq<char>>)
    ensures
        forall|i: int|
            0 <= i < wmic_names(text, excluded).len() ==> {
                let name = #[trigger] wmic_names(text, excluded)[i];
                &&& name.len() > 0
                &&& trim(name) == name
                &&& Some(name) != excluded
                &&& exists|j: int| 1 <= j < lines(text).len() && name == trim(#[trigger] lines(text)[j])
            },
        forall|j: int|
            1 <= j < lines(text).len() && trim(#[trigger] lines(text)[j]).len() > 0 && Some(
                trim(lines(text)[j]),
            ) != excluded ==> wmic_names(text, excluded).contains(trim(lines(text)[j])),
{
    let ls = lines(text);
    if ls.len() > 0 {
        let rest = ls.drop_first();
        lemma_wmic_names_of(rest, excluded);
        let all = wmic_names(text, excluded);
        assert forall|i: int| 0 <= i < all.len() implies {
            let name = #[trigger] all[i];
            &&& name.len() > 0
            &&& trim(name) == name
            &&& Some(name) != excluded
            &&& exists|j: int| 1 <= j < ls.len() && name == trim(#[trigger] ls[j])
        } by {
            let j = choose|j: int| 0 <= j < rest.len() && all[i] == trim(#[trigger] rest[j]);
            assert(rest[j] == ls[j + 1]);
        }
        assert forall|j: int|
            1 <= j < ls.len() && trim(#[trigger] ls[j]).len() > 0 && Some(trim(ls[j])) != excluded
            implies all.contains(trim(ls[j])) by {
            assert(rest[j - 1] == ls[j]);
        }
    }
}

} // verus!
