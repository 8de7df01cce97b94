use vstd::prelude::*;
use crate::evaluation::hans_eval::EvaluationSettings;
use crate::evaluation::wiesel_eval::WieselSettings;

verus! {

/// Which evaluation a search uses, with its settings.
#[derive(Debug, Clone, Copy)]
pub enum EvaluationMode {
    HansEvaluation(EvaluationSettings),
    WieselEvaluation(WieselSettings),
}

} // verus!
