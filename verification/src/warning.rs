//! Warnings that validators emit, and the log that collects them.

use vstd::prelude::*;
use crate::error::VirtLintError;
use crate::order::{sorted_strings, sort_strings};

verus! {

/// Where the problem lies.
#[derive(Debug, Clone, Copy, PartialEq, Eq, PartialOrd, Ord, Hash, Structural)]
pub enum WarningDomain {
    /// The problem lies inside of the domain XML.
    Domain,
    /// The problem lies on the host.
    Node,
}

/// How serious the problem is.
#[derive(Debug, Clone, Copy, PartialEq, Eq, PartialOrd, Ord, Hash, Structural)]
pub enum WarningLevel {
    /// Critical error, the domain should not start.
    Error,
    /// Suboptimal domain configuration.
    Warning,
    /// The configuration is okay, but can use tweaking.
    Notice,
}

/// The number by which scripts name a warning domain.
pub open spec fn spec_domain_number(d: WarningDomain) -> i32 {
    match d {
        WarningDomain::Domain => 0,
        WarningDomain::Node => 1,
    }
}

/// The number by which scripts name a warning level.
pub open spec fn spec_level_number(l: WarningLevel) -> i32 {
    match l {
        WarningLevel::Error => 0,
        WarningLevel::Warning => 1,
        WarningLevel::Notice => 2,
    }
}

/// The message of the error for a number that names no warning domain.
pub open spec fn invalid_domain_msg() -> Seq<char> {
    "invalid warning domain"@
}

/// The message of the error for a number that names no warning level.
pub open spec fn invalid_level_msg() -> Seq<char> {
    "invalid warning level"@
}

impl WarningDomain {
    /// The number by which scripts name this domain.
    pub fn to_i32(self) -> (r: i32)
        ensures
            r == spec_domain_number(self),
    {
        match self {
            WarningDomain::Domain => 0,
            WarningDomain::Node => 1,
        }
    }

    /// The domain that a script names by `n`; `InvalidArgument` for any
    /// other number.
    pub fn try_from_i32(n: i32) -> (r: Result<WarningDomain, VirtLintError>)
        ensures
            r matches Ok(d) ==> spec_domain_number(d) == n,
            r is Err <==> !(0 <= n <= 1),
            r matches Err(e) ==> (e matches VirtLintError::InvalidArgument(m) && m@
                == invalid_domain_msg()),
    {
        proof {
            reveal_strlit("invalid warning domain");
        }
        if n == 0 {
            Ok(WarningDomain::Domain)
        } else if n == 1 {
            Ok(WarningDomain::Node)
        } else {
            Err(VirtLintError::InvalidArgument(String::from_str("invalid warning domain")))
        }
    }
}

impl WarningLevel {
    /// The number by which scripts name this level.
    pub fn to_i32(self) -> (r: i32)
        ensures
            r == spec_level_number(self),
    {
        match self {
            WarningLevel::Error => 0,
            WarningLevel::Warning => 1,
            WarningLevel::Notice => 2,
        }
    }

    /// The level that a script names by `n`; `InvalidArgument` for any other
    /// number.
    pub fn try_from_i32(n: i32) -> (r: Result<WarningLevel, VirtLintError>)
        ensures
            r matches Ok(l) ==> spec_level_number(l) == n,
            r is Err <==> !(0 <= n <= 2),
            r matches Err(e) ==> (e matches VirtLintError::InvalidArgument(m) && m@
                == invalid_level_msg()),
    {
        proof {
            reveal_strlit("invalid warning level");
        }
        if n == 0 {
            Ok(WarningLevel::Error)
        } else if n == 1 {
            Ok(WarningLevel::Warning)
        } else if n == 2 {
            Ok(WarningLevel::Notice)
        } else {
            Err(VirtLintError::InvalidArgument(String::from_str("invalid warning level")))
        }
    }
}

/// The name under which a script reads the number of a warning domain off
/// the `vl` object.
pub open spec fn spec_domain_name(d: WarningDomain) -> Seq<char> {
    match d {
        WarningDomain::Domain => "WarningDomain_Domain"@,
        WarningDomain::Node => "WarningDomain_Node"@,
    }
}

/// The name under which a script reads the number of a warning level off
/// the `vl` object.
pub open spec fn spec_level_name(l: WarningLevel) -> Seq<char> {
    match l {
        WarningLevel::Error => "WarningLevel_Error"@,
        WarningLevel::Warning => "WarningLevel_Warning"@,
        WarningLevel::Notice => "WarningLevel_Notice"@,
    }
}

/// A naming of a warning domain or level number: the names that a script
/// reads off the `vl` object.
pub open spec fn spec_warning_constant(name: Seq<char>) -> Option<i32> {
    if name == "WarningDomain_Domain"@ {
        Some(0)
    } else if name == "WarningDomain_Node"@ {
        Some(1)
    } else if name == "WarningLevel_Error"@ {
        Some(0)
    } else if name == "WarningLevel_Warning"@ {
        Some(1)
    } else if name == "WarningLevel_Notice"@ {
        Some(2)
    } else {
        None
    }
}

/// The number that the script-visible constant `name` stands for; `None`
/// for any other name.
pub fn warning_constant(name: &str) -> (r: Option<i32>)
    ensures
        r == spec_warning_constant(name@),
{
    let n = name.to_owned();
    let c0 = "WarningDomain_Domain".to_owned();
    let c1 = "WarningDomain_Node".to_owned();
    let c2 = "WarningLevel_Error".to_owned();
    let c3 = "WarningLevel_Warning".to_owned();
    let c4 = "WarningLevel_Notice".to_owned();
    if n == c0 {
        Some(0)
    } else if n == c1 {
        Some(1)
    } else if n == c2 {
        Some(0)
    } else if n == c3 {
        Some(1)
    } else if n == c4 {
        Some(2)
    } else {
        None
    }
}

/// One problem found by a validator.
#[derive(Debug, Clone, PartialEq, Eq, PartialOrd, Ord)]
pub struct VirtLintWarning {
    /// Tags of the validator that found it, in sorted order.
    pub tags: Vec<String>,
    /// Where the problem lies.
    pub domain: WarningDomain,
    /// How serious it is.
    pub level: WarningLevel,
    /// What is wrong, in words.
    pub msg: String,
}

impl VirtLintWarning {
    /// A warning with these fields; the tags are put in sorted order.
    pub fn new(tags: Vec<String>, domain: WarningDomain, level: WarningLevel, msg: String) -> (r:
        VirtLintWarning)
        ensures
            sorted_strings(r.tags.deep_view()),
            r.tags.deep_view().to_multiset() == tags.deep_view().to_multiset(),
            r.domain == domain,
            r.level == level,
            r.msg@ == msg@,
    {
        VirtLintWarning { tags: sort_strings(tags), domain, level, msg }
    }
}

/// The warnings that one linting run has collected so far.
pub struct VirtLint {
    warnings: Vec<VirtLintWarning>,
}

impl VirtLint {
    /// The warnings collected so far, oldest first.
    pub closed spec fn spec_warnings(&self) -> Seq<VirtLintWarning> {
        self.warnings@
    }

    /// A log with no warnings.
    pub fn new() -> (r: VirtLint)
        ensures
            r.spec_warnings() == Seq::<VirtLintWarning>::empty(),
    {
        VirtLint { warnings: Vec::new() }
    }

    /// Records a warning, its tags sorted, after those already there.
    pub fn add_warning(
        &mut self,
        tags: Vec<String>,
        domain: WarningDomain,
        level: WarningLevel,
        msg: String,
    )
        ensures
            final(self).spec_warnings().len() == old(self).spec_warnings().len() + 1,
            final(self).spec_warnings().drop_last() == old(self).spec_warnings(),
            sorted_strings(final(self).spec_warnings().last().tags.deep_view()),
            final(self).spec_warnings().last().tags.deep_view().to_multiset()
                == tags.deep_view().to_multiset(),
            final(self).spec_warnings().last().domain == domain,
            final(self).spec_warnings().last().level == level,
            final(self).spec_warnings().last().msg@ == msg@,
    {
        let w = VirtLintWarning::new(tags, domain, level, msg);
        self.warnings.push(w);
        assert(self.warnings@.drop_last() =~= old(self).warnings@);
    }

    /// The warnings collected so far, oldest first.
    pub fn warnings(&self) -> (r: &Vec<VirtLintWarning>)
        ensures
            r@ == self.spec_warnings(),
    {
        &self.warnings
    }
}

/// `after` is `before` with one warning more, reported by a script with
/// these `tags`, domain and level numbers, and message.
pub open spec fn script_warning_added(
    before: Seq<VirtLintWarning>,
    after: Seq<VirtLintWarning>,
    tags: Seq<Seq<char>>,
    domain: i32,
    level: i32,
    msg: Seq<char>,
) -> bool {
    &&& after.drop_last() == before
    &&& after.len() == before.len() + 1
    &&& sorted_strings(after.last().tags.deep_view())
    &&& after.last().tags.deep_view().to_multiset() == tags.to_multiset()
    &&& spec_domain_number(after.last().domain) == domain
    &&& spec_level_number(after.last().level) == level
    &&& after.last().msg@ == msg
}

/// Records the warning that a validator script reports with the numbers
/// `domain` and `level` and the message `msg`, under the script's `tags`;
/// `InvalidArgument` (and nothing recorded) where a number names no domain
/// or level, the domain being looked at first.
pub fn add_script_warning(vl: &mut VirtLint, tags: Vec<String>, domain: i32, level: i32, msg: String) -> (r:
    Result<(), VirtLintError>)
    ensures
        r is Ok <==> (0 <= domain <= 1 && 0 <= level <= 2),
        r is Err ==> final(vl).spec_warnings() == old(vl).spec_warnings(),
        r matches Err(e) ==> (e matches VirtLintError::InvalidArgument(m) && m@ == if 0 <= domain
            <= 1 {
            invalid_level_msg()
        } else {
            invalid_domain_msg()
        }),
        r is Ok ==> script_warning_added(
            old(vl).spec_warnings(),
            final(vl).spec_warnings(),
            tags.deep_view(),
            domain,
            level,
            msg@,
        ),
{
    let d = WarningDomain::try_from_i32(domain)?;
    let l = WarningLevel::try_from_i32(level)?;
    vl.add_warning(tags, d, l, msg);
    Ok(())
}

} // verus!
