//! Switching an add-on on and off, which is done by renaming its file: a
//! disabled add-on carries `.disabled` after its name.

use vstd::prelude::*;
use vstd::string::*;
use crate::scanner::{file_stem, is_archive, is_archive_name, last_dot, stem_of};
use crate::text::{ends_with, has_suffix, str_eq};

verus! {

/// The add-ons of a directory by file name, split by whether they are
/// switched on.
pub struct Addons {
    pub enabled: Vec<String>,
    pub disabled: Vec<String>,
}

/// Why the file of an add-on cannot be switched.
#[derive(Clone, Copy, Debug, PartialEq, Eq, Structural)]
pub enum ToggleError {
    /// The file name ends neither in `.disabled` nor in `.vpk`.
    NotAnAddon,
}

/// The name that a file gets when its add-on is switched: a disabled one
/// loses its last extension, an enabled archive gains `.disabled`.
pub open spec fn toggled_name_of(file_name: Seq<char>) -> Option<Seq<char>> {
    if has_suffix(file_name, ".disabled"@) {
        Some(stem_of(file_name))
    } else if is_archive(file_name) {
        Some(file_name + ".disabled"@)
    } else {
        None
    }
}

/// Computes the name to rename an add-on's file to; see
/// [`toggled_name_of`].
pub fn toggled_name(file_name: &str) -> (r: Result<String, ToggleError>)
    ensures
        match toggled_name_of(file_name@) {
            Some(name) => r matches Ok(s) && s@ == name,
            None => r matches Err(e) && e == ToggleError::NotAnAddon,
        },
{
    if ends_with(file_name, ".disabled") {
        Ok(file_stem(file_name))
    } else if is_archive_name(file_name) {
        let mut name = file_name.to_owned();
        name.append(".disabled");
        Ok(name)
    } else {
        Err(ToggleError::NotAnAddon)
    }
}

proof fn lemma_last_dot_of_suffixed(name: Seq<char>, upto: int)
    requires
        name.len() <= upto <= name.len() + 9,
    ensures
        last_dot(name + ".disabled"@, upto) == if upto > name.len() {
            Some(name.len() as int)
        } else {
            last_dot(name, upto)
        },
    decreases upto,
{
    reveal_strlit(".disabled");
    let whole = name + ".disabled"@;
    if upto > name.len() {
        assert(whole[name.len() as int] == '.');
        if upto - 1 > name.len() {
            assert(whole[upto - 1] == ".disabled"@[upto - 1 - name.len()]);
            lemma_last_dot_of_suffixed(name, upto - 1);
        }
    } else {
        lemma_last_dot_prefix(name, whole, upto);
    }
}

proof fn lemma_last_dot_prefix(a: Seq<char>, b: Seq<char>, upto: int)
    requires
        0 <= upto <= a.len() <= b.len(),
        forall|i: int| 0 <= i < a.len() ==> a[i] == b[i],
    ensures
        last_dot(a, upto) == last_dot(b, upto),
    decreases upto,
{
    if upto > 0 {
        lemma_last_dot_prefix(a, b, upto - 1);
    }
}

/// Switching an enabled archive off and on again gives back its name.
pub proof fn lemma_toggle_twice(file_name: Seq<char>)
    requires
        is_archive(file_name),
    ensures
        toggled_name_of(file_name) == Some(file_name + ".disabled"@),
        toggled_name_of(file_name + ".disabled"@) == Some(file_name),
{
    reveal_strlit(".disabled");
    reveal_strlit(".vpk");
    let off = file_name + ".disabled"@;
    let n = file_name.len() as int;
    assert(file_name.subrange(n - 4, n)[3] == 'k');
    if has_suffix(file_name, ".disabled"@) {
        assert(file_name.subrange(n - 9, n)[8] == 'd');
    }
    assert(off.subrange(off.len() - 9, off.len() as int) =~= ".disabled"@);
    lemma_last_dot_of_suffixed(file_name, off.len() as int);
    assert(off.subrange(0, file_name.len() as int) =~= file_name);
}


/// Why the file of an add-on cannot be moved out of the workshop folder.
#[derive(Clone, Copy, Debug, PartialEq, Eq, Structural)]
pub enum MigrateError {
    /// The file does not lie in a folder named `workshop`.
    NotInWorkshop,
}

/// Whether a file may be moved out of its folder into the folder above:
/// only out of a folder named `workshop`.
pub fn check_migration(parent_name: &str) -> (r: Result<(), MigrateError>)
    ensures
        r is Ok <==> parent_name@ == "workshop"@,
{
    if str_eq(parent_name, "workshop") {
        Ok(())
    } else {
        Err(MigrateError::NotInWorkshop)
    }
}

} // verus!
