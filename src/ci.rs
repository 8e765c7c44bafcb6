//! CI policy checks over a list of items, and their report.
use vstd::prelude::*;

use crate::config::Config;
use crate::text::{concat_text, decimal, decimal_text};
use crate::todo::{TodoItem, TodoTag};

verus! {

/// Result of a policy check.
pub struct CheckResult {
    /// Whether all policy checks passed.
    pub passed: bool,
    /// The violations found.
    pub violations: Vec<Violation>,
}

/// One policy violation.
#[derive(Debug)]
pub struct Violation {
    /// The rule that was violated.
    pub rule: String,
    /// Human-readable description.
    pub message: String,
    /// File where the violation occurred, if applicable.
    pub file: Option<String>,
    /// Line where the violation occurred, if applicable.
    pub line: Option<u32>,
}

pub struct ViolationView {
    pub rule: Seq<char>,
    pub message: Seq<char>,
    pub file: Option<Seq<char>>,
    pub line: Option<u32>,
}

pub open spec fn violation_view(v: Violation) -> ViolationView {
    ViolationView {
        rule: v.rule@,
        message: v.message@,
        file: match v.file {
            Some(f) => Some(f@),
            None => None,
        },
        line: v.line,
    }
}

pub open spec fn violation_views(v: Seq<Violation>) -> Seq<ViolationView> {
    v.map_values(|x: Violation| violation_view(x))
}

/// The violation for one FIXME item.
pub open spec fn fixme_violation(it: TodoItem) -> ViolationView {
    ViolationView {
        rule: "fail_on_fixme"@,
        message: "FIXME found: "@ + it.message@,
        file: Some(it.file@),
        line: Some(it.line),
    }
}

/// One violation per FIXME item, in order.
pub open spec fn fixme_violations(items: Seq<TodoItem>) -> Seq<ViolationView>
    decreases items.len(),
{
    if items.len() == 0 {
        seq![]
    } else if items.last().tag == TodoTag::Fixme {
        fixme_violations(items.drop_last()).push(fixme_violation(items.last()))
    } else {
        fixme_violations(items.drop_last())
    }
}

/// The violation for too many items.
pub open spec fn count_violation(n: nat, limit: u32) -> ViolationView {
    ViolationView {
        rule: "max_todos"@,
        message: "Total TODOs ("@ + decimal(n) + ") exceeds limit ("@ + decimal(limit as nat) + ")"@,
        file: None,
        line: None,
    }
}

/// The violations of the policy: FIXMEs when they fail the check, then the item count
/// when a nonzero limit is exceeded.
pub open spec fn policy_violations(items: Seq<TodoItem>, config: Config) -> Seq<ViolationView> {
    (if config.ci.fail_on_fixme { fixme_violations(items) } else { seq![] }) + (if config.ci.max_todos
        > 0 && items.len() > config.ci.max_todos {
        seq![count_violation(items.len(), config.ci.max_todos)]
    } else {
        seq![]
    })
}

/// Runs the policy checks against a list of items.
pub fn check(items: &Vec<TodoItem>, config: &Config) -> (r: CheckResult)
    ensures
        violation_views(r.violations@) == policy_violations(items@, *config),
        r.passed == (r.violations@.len() == 0),
{
    let mut violations: Vec<Violation> = Vec::new();
    if config.ci.fail_on_fixme {
        let mut i: usize = 0;
        while i < items.len()
            invariant
                0 <= i <= items@.len(),
                violation_views(violations@) == fixme_violations(items@.subrange(0, i as int)),
            decreases items@.len() - i,
        {
            let item = &items[i];
            proof {
                assert(items@.subrange(0, i + 1).drop_last() =~= items@.subrange(0, i as int));
            }
            if item.tag == TodoTag::Fixme {
                let v = Violation {
                    rule: "fail_on_fixme".to_owned(),
                    message: concat_text("FIXME found: ", item.message.as_str()),
                    file: Some(item.file.clone()),
                    line: Some(item.line),
                };
                let ghost before = violation_views(violations@);
                violations.push(v);
                assert(violation_views(violations@) =~= before.push(violation_view(v)));
            }
            i = i + 1;
        }
        assert(items@.subrange(0, i as int) =~= items@);
    }
    let ghost first = violation_views(violations@);
    if config.ci.max_todos > 0 && items.len() as u64 > config.ci.max_todos as u64 {
        let head = concat_text("Total TODOs (", decimal_text(items.len() as u64).as_str());
        let mid = concat_text(head.as_str(), ") exceeds limit (");
        let with_limit = concat_text(mid.as_str(), decimal_text(config.ci.max_todos as u64).as_str());
        let message = concat_text(with_limit.as_str(), ")");
        let v = Violation { rule: "max_todos".to_owned(), message, file: None, line: None };
        violations.push(v);
        assert(violation_views(violations@) =~= first.push(violation_view(v)));
    }
    proof {
        if config.ci.fail_on_fixme {
        } else {
            assert(first =~= Seq::<ViolationView>::empty());
        }
        assert(violation_views(violations@) =~= policy_violations(items@, *config));
    }
    let passed = violations.len() == 0;
    CheckResult { passed, violations }
}

/// How a violation reads in the report.
pub open spec fn violation_text(v: ViolationView) -> Seq<char> {
    if v.file is Some && v.line is Some {
        " FAIL  "@ + v.file->0 + ":"@ + decimal(v.line->0 as nat) + "\n       "@ + v.message
    } else {
        " FAIL  "@ + v.message
    }
}

/// The report body: each violation followed by a blank line.
pub open spec fn violations_text(vs: Seq<ViolationView>) -> Seq<char>
    decreases vs.len(),
{
    if vs.len() == 0 {
        seq![]
    } else {
        violations_text(vs.drop_last()) + violation_text(vs.last()) + "\n\n"@
    }
}

impl Violation {
    /// The violation as it reads in the report.
    pub fn render(&self) -> (r: String)
        ensures
            r@ == violation_text(violation_view(*self)),
    {
        match (&self.file, self.line) {
            (Some(file), Some(line)) => {
                let a = concat_text(" FAIL  ", file.as_str());
                let b = concat_text(a.as_str(), ":");
                let c = concat_text(b.as_str(), decimal_text(line as u64).as_str());
                let d = concat_text(c.as_str(), "\n       ");
                concat_text(d.as_str(), self.message.as_str())
            },
            _ => concat_text(" FAIL  ", self.message.as_str()),
        }
    }
}

/// Formats a check result for the terminal.
pub fn format_check_result(result: &CheckResult) -> (r: String)
    ensures
        r@ == if result.passed {
            "All checks passed."@
        } else {
            violations_text(violation_views(result.violations@)) + decimal(
                result.violations@.len() as nat,
            ) + " violation(s) found.\n"@
        },
{
    if result.passed {
        return "All checks passed.".to_owned();
    }
    let mut output = String::new();
    let ghost vs = violation_views(result.violations@);
    let mut i: usize = 0;
    while i < result.violations.len()
        invariant
            0 <= i <= result.violations@.len(),
            vs == violation_views(result.violations@),
            output@ == violations_text(vs.subrange(0, i as int)),
        decreases result.violations@.len() - i,
    {
        let text = result.violations[i].render();
        let a = concat_text(output.as_str(), text.as_str());
        output = concat_text(a.as_str(), "\n\n");
        proof {
            assert(vs.subrange(0, i + 1).drop_last() =~= vs.subrange(0, i as int));
        }
        i = i + 1;
    }
    assert(vs.subrange(0, i as int) =~= vs);
    let count = decimal_text(result.violations.len() as u64);
    let a = concat_text(output.as_str(), count.as_str());
    concat_text(a.as_str(), " violation(s) found.\n")
}

} // verus!
