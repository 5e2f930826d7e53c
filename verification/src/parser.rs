//! The plan as the parser hands it over, and its conversion into a plan of
//! the engine.

use vstd::prelude::*;
use crate::error::Error;
use crate::model::Formula;
use crate::model::Plan;
use crate::text::attribute_value;
use crate::text::parsed_integer;
use crate::text::typed_operand;
use crate::types::Condition;
use crate::types::Expression;
use crate::types::names_view;

verus! {

/// A condition as parsed: operators are still text.
#[derive(Debug)]
pub enum ConditionParse {
    True,
    False,
    Log1 { logical: String, condition: Box<ConditionParse> },
    Log2 { logical: String, condition1: Box<ConditionParse>, condition2: Box<ConditionParse> },
    Comp { comparator: String, attribute1: String, attribute2: String },
}

/// A plan as parsed.
#[derive(Debug)]
pub enum ExpressionParse {
    Select { object: Box<ExpressionParse>, condition: Box<ConditionParse> },
    Project { object: Box<ExpressionParse>, attributes: Vec<String> },
    Rename {
        object: Box<ExpressionParse>,
        old_attributes: Vec<String>,
        new_attributes: Vec<String>,
    },
    Except { object1: Box<ExpressionParse>, object2: Box<ExpressionParse> },
    Union { object1: Box<ExpressionParse>, object2: Box<ExpressionParse> },
    Product { object1: Box<ExpressionParse>, object2: Box<ExpressionParse> },
    Read { filename: String },
    ReadSelectProjectRename {
        filename: String,
        condition: Box<ConditionParse>,
        old_attributes: Vec<String>,
        new_attributes: Vec<String>,
    },
    JoinProjectRename {
        object1: Box<ExpressionParse>,
        object2: Box<ExpressionParse>,
        condition: Box<ConditionParse>,
        old_attributes: Vec<String>,
        new_attributes: Vec<String>,
    },
}

/// The formula that a parsed condition stands for: `not`, `and` and `or`
/// are the logical operators, `=`, `<` and `>` the comparators; an operand
/// that is an integer literal is that integer, any other a column.
pub open spec fn formula_of(c: ConditionParse) -> Result<Formula, Error>
    decreases c,
{
    match c {
        ConditionParse::True => Ok(Formula::True),
        ConditionParse::False => Ok(Formula::False),
        ConditionParse::Log1 { logical, condition } => if logical@ == "not"@ {
            match formula_of(*condition) {
                Ok(a) => Ok(Formula::Not(Box::new(a))),
                Err(e) => Err(e),
            }
        } else {
            Err(Error::UnsupportedOperator)
        },
        ConditionParse::Log2 { logical, condition1, condition2 } => if logical@ == "or"@ {
            match formula_of(*condition1) {
                Ok(a) => match formula_of(*condition2) {
                    Ok(b) => Ok(Formula::Or(Box::new(a), Box::new(b))),
                    Err(e) => Err(e),
                },
                Err(e) => Err(e),
            }
        } else if logical@ == "and"@ {
            match formula_of(*condition1) {
                Ok(a) => match formula_of(*condition2) {
                    Ok(b) => Ok(Formula::And(Box::new(a), Box::new(b))),
                    Err(e) => Err(e),
                },
                Err(e) => Err(e),
            }
        } else {
            Err(Error::UnsupportedOperator)
        },
        ConditionParse::Comp { comparator, attribute1, attribute2 } => {
            let x = typed_operand(attribute1@, parsed_integer(attribute1@));
            let y = typed_operand(attribute2@, parsed_integer(attribute2@));
            if comparator@ == "="@ {
                Ok(Formula::Equal(x, y))
            } else if comparator@ == "<"@ {
                Ok(Formula::Less(x, y))
            } else if comparator@ == ">"@ {
                Ok(Formula::More(x, y))
            } else {
                Err(Error::UnsupportedOperator)
            }
        },
    }
}

/// The plan that a parsed plan stands for.
pub open spec fn plan_of(e: ExpressionParse) -> Result<Plan, Error>
    decreases e,
{
    match e {
        ExpressionParse::Select { object, condition } => match plan_of(*object) {
            Ok(p) => match formula_of(*condition) {
                Ok(c) => Ok(Plan::Select(Box::new(p), c)),
                Err(e) => Err(e),
            },
            Err(e) => Err(e),
        },
        ExpressionParse::Project { object, attributes } => match plan_of(*object) {
            Ok(p) => Ok(Plan::Project(Box::new(p), names_view(attributes@))),
            Err(e) => Err(e),
        },
        ExpressionParse::Rename { object, old_attributes, new_attributes } => match plan_of(
            *object,
        ) {
            Ok(p) => Ok(
                Plan::Rename(Box::new(p), names_view(old_attributes@), names_view(new_attributes@)),
            ),
            Err(e) => Err(e),
        },
        ExpressionParse::Except { object1, object2 } => match plan_of(*object1) {
            Ok(p) => match plan_of(*object2) {
                Ok(q) => Ok(Plan::Except(Box::new(p), Box::new(q))),
                Err(e) => Err(e),
            },
            Err(e) => Err(e),
        },
        ExpressionParse::Union { object1, object2 } => match plan_of(*object1) {
            Ok(p) => match plan_of(*object2) {
                Ok(q) => Ok(Plan::Union(Box::new(p), Box::new(q))),
                Err(e) => Err(e),
            },
            Err(e) => Err(e),
        },
        ExpressionParse::Product { object1, object2 } => match plan_of(*object1) {
            Ok(p) => match plan_of(*object2) {
                Ok(q) => Ok(Plan::Product(Box::new(p), Box::new(q))),
                Err(e) => Err(e),
            },
            Err(e) => Err(e),
        },
        ExpressionParse::Read { filename } => Ok(Plan::Load(filename@, None)),
        ExpressionParse::ReadSelectProjectRename {
            filename,
            condition,
            old_attributes,
            new_attributes,
        } => match formula_of(*condition) {
            Ok(c) => Ok(
                Plan::ReadSelectProjectRename(
                    filename@,
                    c,
                    names_view(old_attributes@),
                    names_view(new_attributes@),
                ),
            ),
            Err(e) => Err(e),
        },
        ExpressionParse::JoinProjectRename {
            object1,
            object2,
            condition,
            old_attributes,
            new_attributes,
        } => match plan_of(*object1) {
            Ok(p) => match plan_of(*object2) {
                Ok(q) => match formula_of(*condition) {
                    Ok(c) => Ok(
                        Plan::JoinProjectRename(
                            Box::new(p),
                            Box::new(q),
                            c,
                            names_view(old_attributes@),
                            names_view(new_attributes@),
                        ),
                    ),
                    Err(e) => Err(e),
                },
                Err(e) => Err(e),
            },
            Err(e) => Err(e),
        },
    }
}

/// What a fallible condition stands for.
pub open spec fn condition_result(r: Result<Condition, Error>) -> Result<Formula, Error> {
    match r {
        Ok(c) => Ok(c@),
        Err(e) => Err(e),
    }
}

/// What a fallible expression stands for.
pub open spec fn expression_result(r: Result<Expression, Error>) -> Result<Plan, Error> {
    match r {
        Ok(e) => Ok(e@),
        Err(e) => Err(e),
    }
}

impl Condition {
    /// The condition that a parsed condition stands for; an unknown
    /// operator is refused.
    pub fn from(condition: ConditionParse) -> (r: Result<Condition, Error>)
        ensures
            condition_result(r) == formula_of(condition),
        decreases condition,
    {
        match condition {
            ConditionParse::True => Ok(Condition::True),
            ConditionParse::False => Ok(Condition::False),
            ConditionParse::Log1 { logical: op, condition: c } => {
                if op == String::from_str("not") {
                    match Condition::from(*c) {
                        Ok(a) => Ok(Condition::Not(Box::new(a))),
                        Err(e) => Err(e),
                    }
                } else {
                    Err(Error::UnsupportedOperator)
                }
            },
            ConditionParse::Log2 { logical: op, condition1: c1, condition2: c2 } => {
                if op == String::from_str("or") {
                    match Condition::from(*c1) {
                        Ok(a) => match Condition::from(*c2) {
                            Ok(b) => Ok(Condition::Or(Box::new(a), Box::new(b))),
                            Err(e) => Err(e),
                        },
                        Err(e) => Err(e),
                    }
                } else if op == String::from_str("and") {
                    match Condition::from(*c1) {
                        Ok(a) => match Condition::from(*c2) {
                            Ok(b) => Ok(Condition::And(Box::new(a), Box::new(b))),
                            Err(e) => Err(e),
                        },
                        Err(e) => Err(e),
                    }
                } else {
                    Err(Error::UnsupportedOperator)
                }
            },
            ConditionParse::Comp { comparator: c, attribute1: a1, attribute2: a2 } => {
                let v1 = attribute_value(a1);
                let v2 = attribute_value(a2);
                if c == String::from_str("=") {
                    Ok(Condition::Equal(v1, v2))
                } else if c == String::from_str("<") {
                    Ok(Condition::Less(v1, v2))
                } else if c == String::from_str(">") {
                    Ok(Condition::More(v1, v2))
                } else {
                    Err(Error::UnsupportedOperator)
                }
            },
        }
    }
}

impl Expression {
    /// The plan that a parsed plan stands for; a `Load` starts without
    /// discovered columns.
    pub fn from(expression: ExpressionParse) -> (r: Result<Expression, Error>)
        ensures
            expression_result(r) == plan_of(expression),
        decreases expression,
    {
        match expression {
            ExpressionParse::Select { object: o, condition: c } => match Expression::from(*o) {
                Ok(p) => match Condition::from(*c) {
                    Ok(c) => Ok(Expression::Select(Box::new(p), Box::new(c))),
                    Err(e) => Err(e),
                },
                Err(e) => Err(e),
            },
            ExpressionParse::Project { object: o, attributes: a } => match Expression::from(*o) {
                Ok(p) => Ok(Expression::Project(Box::new(p), a)),
                Err(e) => Err(e),
            },
            ExpressionParse::Rename { object: o, old_attributes: oa, new_attributes: na } => {
                match Expression::from(*o) {
                    Ok(p) => Ok(Expression::Rename(Box::new(p), oa, na)),
                    Err(e) => Err(e),
                }
            },
            ExpressionParse::Except { object1: o1, object2: o2 } => match Expression::from(*o1) {
                Ok(p) => match Expression::from(*o2) {
                    Ok(q) => Ok(Expression::Except(Box::new(p), Box::new(q))),
                    Err(e) => Err(e),
                },
                Err(e) => Err(e),
            },
            ExpressionParse::Union { object1: o1, object2: o2 } => match Expression::from(*o1) {
                Ok(p) => match Expression::from(*o2) {
                    Ok(q) => Ok(Expression::Union(Box::new(p), Box::new(q))),
                    Err(e) => Err(e),
                },
                Err(e) => Err(e),
            },
            ExpressionParse::Product { object1: o1, object2: o2 } => match Expression::from(*o1) {
                Ok(p) => match Expression::from(*o2) {
                    Ok(q) => Ok(Expression::Product(Box::new(p), Box::new(q))),
                    Err(e) => Err(e),
                },
                Err(e) => Err(e),
            },
            ExpressionParse::Read { filename: f } => Ok(Expression::Load(f, None)),
            ExpressionParse::ReadSelectProjectRename {
                filename: f,
                condition: c,
                old_attributes: oa,
                new_attributes: na,
            } => match Condition::from(*c) {
                Ok(c) => Ok(Expression::ReadSelectProjectRename(f, Box::new(c), oa, na)),
                Err(e) => Err(e),
            },
            ExpressionParse::JoinProjectRename {
                object1: o1,
                object2: o2,
                condition: c,
                old_attributes: oa,
                new_attributes: na,
            } => match Expression::from(*o1) {
                Ok(p) => match Expression::from(*o2) {
                    Ok(q) => match Condition::from(*c) {
                        Ok(c) => Ok(
                            Expression::JoinProjectRename(
                                Box::new(p),
                                Box::new(q),
                                Box::new(c),
                                oa,
                                na,
                            ),
                        ),
                        Err(e) => Err(e),
                    },
                    Err(e) => Err(e),
                },
                Err(e) => Err(e),
            },
        }
    }
}

} // verus!
