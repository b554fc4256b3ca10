//! Letter classes: the joining type and the joining group of a character,
//! as given by the Unicode character database.

use unicode_joining_type::{JoiningGroup, JoiningType};
use vstd::prelude::*;

verus! {

#[verifier::external_type_specification]
pub struct ExJoiningType(JoiningType);

#[verifier::external_type_specification]
pub struct ExJoiningGroup(JoiningGroup);

/// The Unicode `Joining_Type` property of a character.
pub uninterp spec fn joining_type_of(c: char) -> JoiningType;

/// The Unicode `Joining_Group` property of a character.
pub uninterp spec fn joining_group_of(c: char) -> JoiningGroup;

/// Relies on unicode_joining_type::get_joining_type: a table lookup of the
/// character's joining type, a function of the character alone.
pub assume_specification[ unicode_joining_type::get_joining_type ](chr: char) -> (r: JoiningType)
    ensures
        r == joining_type_of(chr),
;

/// Relies on unicode_joining_type::get_joining_group: a table lookup of the
/// character's joining group, a function of the character alone.
pub assume_specification[ unicode_joining_type::get_joining_group ](chr: char) -> (r: JoiningGroup)
    ensures
        r == joining_group_of(chr),
;

/// The letter classes that the rules of the engines test a character for.
#[derive(Clone, Copy, Debug, PartialEq, Eq, Structural)]
pub enum Class {
    /// The elongation character itself (joining type Join_Causing).
    Kashida,
    /// Joins the letter that follows it (Dual_Joining or Join_Causing).
    JoinsFollowing,
    /// Joins the letter that precedes it (Dual_Joining, Join_Causing or Right_Joining).
    JoinsPreceding,
    /// Joins the letter that follows it and is not a Lam.
    JoinsFollowingNotLam,
    Alef,
    Lam,
    /// The tooth-shaped letters: the Beh, Noon and Yeh families.
    Tooth,
    SeenOrSad,
    Reh,
    Noon,
    /// A Yeh that takes a final form, or a Meem.
    FinalYehOrMeem,
    HehOrTehMarbuta,
    /// Dal or Teh Marbuta.
    DalOrTehMarbuta,
    /// Tah, Kaf or Lam.
    TahKafOrLam,
    AinFehOrQaf,
    Waw,
    /// The Syriac Alaph.
    Alaph,
    /// The Syriac Lamadh.
    Lamadh,
}

/// What the rules read of a character: its joining type and joining group.
pub type Letter = (JoiningType, JoiningGroup);

/// The joining type and joining group of `c`.
pub open spec fn letter_of(c: char) -> Letter {
    (joining_type_of(c), joining_group_of(c))
}

/// The letters of the characters `s`.
pub open spec fn letters_of(s: Seq<char>) -> Seq<Letter> {
    s.map_values(|c: char| letter_of(c))
}

pub open spec fn joins_following(t: JoiningType) -> bool {
    t is DualJoining || t is JoinCausing
}

pub open spec fn joins_preceding(t: JoiningType) -> bool {
    t is DualJoining || t is JoinCausing || t is RightJoining
}

pub open spec fn is_tooth(g: JoiningGroup) -> bool {
    g is Beh || g is Noon || g is AfricanNoon || g is Nya || g is Yeh || g is FarsiYeh
        || g is ThinYeh || g is BurushaskiYehBarree
}

pub open spec fn is_noon(g: JoiningGroup) -> bool {
    g is Noon || g is AfricanNoon || g is Nya
}

pub open spec fn is_final_yeh(g: JoiningGroup) -> bool {
    g is Yeh || g is FarsiYeh || g is BurushaskiYehBarree || g is YehBarree || g is YehWithTail
        || g is RohingyaYeh
}

pub open spec fn is_heh(g: JoiningGroup) -> bool {
    g is Heh || g is KnottedHeh || g is HehGoal
}

pub open spec fn is_teh_marbuta(g: JoiningGroup) -> bool {
    g is TehMarbuta || g is TehMarbutaGoal
}

pub open spec fn is_tah_or_kaf(g: JoiningGroup) -> bool {
    g is Tah || g is Kaf || g is SwashKaf || g is Gaf
}

pub open spec fn is_ain_feh_or_qaf(g: JoiningGroup) -> bool {
    g is Ain || g is Feh || g is AfricanFeh || g is Qaf || g is AfricanQaf
}

pub open spec fn is_waw(g: JoiningGroup) -> bool {
    g is Waw || g is StraightWaw
}

/// Whether the letter `l` belongs to the class `k`.
pub open spec fn in_class(k: Class, l: Letter) -> bool {
    let (t, g) = l;
    match k {
        Class::Kashida => t is JoinCausing,
        Class::JoinsFollowing => joins_following(t),
        Class::JoinsPreceding => joins_preceding(t),
        Class::JoinsFollowingNotLam => joins_following(t) && !(g is Lam),
        Class::Alef => g is Alef,
        Class::Lam => g is Lam,
        Class::Tooth => is_tooth(g),
        Class::SeenOrSad => g is Seen || g is Sad,
        Class::Reh => g is Reh,
        Class::Noon => is_noon(g),
        Class::FinalYehOrMeem => is_final_yeh(g) || g is Meem,
        Class::HehOrTehMarbuta => is_heh(g) || is_teh_marbuta(g),
        Class::DalOrTehMarbuta => g is Dal || is_teh_marbuta(g),
        Class::TahKafOrLam => is_tah_or_kaf(g) || g is Lam,
        Class::AinFehOrQaf => is_ain_feh_or_qaf(g),
        Class::Waw => is_waw(g),
        Class::Alaph => g is Alaph,
        Class::Lamadh => g is Lamadh,
    }
}

/// Tells whether the letter `l` belongs to the class `k`.
pub fn letter_in_class(k: Class, l: Letter) -> (r: bool)
    ensures
        r == in_class(k, l),
{
    let (t, g) = l;
    let follows = matches!(t, JoiningType::DualJoining | JoiningType::JoinCausing);
    let lam = matches!(g, JoiningGroup::Lam);
    let heh = matches!(g, JoiningGroup::Heh | JoiningGroup::KnottedHeh | JoiningGroup::HehGoal);
    let teh_marbuta = matches!(g, JoiningGroup::TehMarbuta | JoiningGroup::TehMarbutaGoal);
    match k {
        Class::Kashida => matches!(t, JoiningType::JoinCausing),
        Class::JoinsFollowing => follows,
        Class::JoinsPreceding => follows || matches!(t, JoiningType::RightJoining),
        Class::JoinsFollowingNotLam => follows && !lam,
        Class::Alef => matches!(g, JoiningGroup::Alef),
        Class::Lam => lam,
        Class::Tooth => matches!(g,
            JoiningGroup::Beh | JoiningGroup::Noon | JoiningGroup::AfricanNoon | JoiningGroup::Nya
            | JoiningGroup::Yeh | JoiningGroup::FarsiYeh | JoiningGroup::ThinYeh
            | JoiningGroup::BurushaskiYehBarree),
        Class::SeenOrSad => matches!(g, JoiningGroup::Seen | JoiningGroup::Sad),
        Class::Reh => matches!(g, JoiningGroup::Reh),
        Class::Noon => matches!(g, JoiningGroup::Noon | JoiningGroup::AfricanNoon | JoiningGroup::Nya),
        Class::FinalYehOrMeem => matches!(g,
            JoiningGroup::Yeh | JoiningGroup::FarsiYeh | JoiningGroup::BurushaskiYehBarree
            | JoiningGroup::YehBarree | JoiningGroup::YehWithTail | JoiningGroup::RohingyaYeh
            | JoiningGroup::Meem),
        Class::HehOrTehMarbuta => heh || teh_marbuta,
        Class::DalOrTehMarbuta => matches!(g, JoiningGroup::Dal) || teh_marbuta,
        Class::TahKafOrLam => lam || matches!(g,
            JoiningGroup::Tah | JoiningGroup::Kaf | JoiningGroup::SwashKaf | JoiningGroup::Gaf),
        Class::AinFehOrQaf => matches!(g,
            JoiningGroup::Ain | JoiningGroup::Feh | JoiningGroup::AfricanFeh | JoiningGroup::Qaf
            | JoiningGroup::AfricanQaf),
        Class::Waw => matches!(g, JoiningGroup::Waw | JoiningGroup::StraightWaw),
        Class::Alaph => matches!(g, JoiningGroup::Alaph),
        Class::Lamadh => matches!(g, JoiningGroup::Lamadh),
    }
}

/// Looks up the letter of each character of `s`.
pub fn classify(s: &Vec<char>) -> (r: Vec<Letter>)
    ensures
        r@ == letters_of(s@),
{
    let mut r: Vec<Letter> = Vec::new();
    let mut i: usize = 0;
    while i < s.len()
        invariant
            i <= s@.len(),
            r@ == letters_of(s@.take(i as int)),
        decreases s.len() - i,
    {
        let c = s[i];
        r.push((unicode_joining_type::get_joining_type(c), unicode_joining_type::get_joining_group(c)));
        i = i + 1;
        assert(r@ =~= letters_of(s@.take(i as int)));
    }
    assert(s@.take(s@.len() as int) =~= s@);
    r
}

/// A cluster: the characters of the text at the indices `start .. end`.
pub type Span = (usize, usize);

/// Whether some letter of the cluster `sp` of `s` belongs to `k`.
pub open spec fn has(s: Seq<Letter>, sp: Span, k: Class) -> bool {
    exists|i: int| sp.0 <= i < sp.1 && #[trigger] in_class(k, s[i])
}

/// Whether every letter of the cluster `sp` of `s` belongs to `k`.
pub open spec fn all(s: Seq<Letter>, sp: Span, k: Class) -> bool {
    forall|i: int| sp.0 <= i < sp.1 ==> #[trigger] in_class(k, s[i])
}

/// Tells whether some character of the cluster `sp` belongs to `k`.
pub fn cluster_has(s: &Vec<Letter>, sp: Span, k: Class) -> (r: bool)
    requires
        sp.0 <= sp.1 <= s@.len(),
    ensures
        r == has(s@, sp, k),
{
    let mut i: usize = sp.0;
    while i < sp.1
        invariant
            sp.0 <= i <= sp.1 <= s@.len(),
            forall|j: int| sp.0 <= j < i ==> !in_class(k, s@[j]),
        decreases sp.1 - i,
    {
        if letter_in_class(k, s[i]) {
            return true;
        }
        i = i + 1;
    }
    false
}

/// Tells whether every character of the cluster `sp` belongs to `k`.
pub fn cluster_all(s: &Vec<Letter>, sp: Span, k: Class) -> (r: bool)
    requires
        sp.0 <= sp.1 <= s@.len(),
    ensures
        r == all(s@, sp, k),
{
    let mut i: usize = sp.0;
    while i < sp.1
        invariant
            sp.0 <= i <= sp.1 <= s@.len(),
            forall|j: int| sp.0 <= j < i ==> in_class(k, s@[j]),
        decreases sp.1 - i,
    {
        if !letter_in_class(k, s[i]) {
            return false;
        }
        i = i + 1;
    }
    true
}

/// Whether the cluster `g` is present and some character of it belongs to `k`.
pub open spec fn holds(s: Seq<Letter>, g: Option<Span>, k: Class) -> bool {
    match g {
        Some(sp) => has(s, sp, k),
        None => false,
    }
}

/// A cluster that lies within the text `s`, or none.
pub open spec fn fits(s: Seq<Letter>, g: Option<Span>) -> bool {
    match g {
        Some(sp) => sp.0 <= sp.1 <= s.len(),
        None => true,
    }
}

/// The index of the first character of the cluster `g`.
pub open spec fn start(g: Option<Span>) -> usize {
    match g {
        Some(sp) => sp.0,
        None => 0,
    }
}

/// Tells whether the cluster `g` is present and some character of it belongs to `k`.
pub fn opt_has(s: &Vec<Letter>, g: Option<Span>, k: Class) -> (r: bool)
    requires
        fits(s@, g),
    ensures
        r == holds(s@, g, k),
{
    match g {
        Some(sp) => cluster_has(s, sp, k),
        None => false,
    }
}

} // verus!
