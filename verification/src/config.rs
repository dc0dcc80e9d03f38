//! The application configuration: model entries and storage settings,
//! and the rule picking the analysis model.
//!
//! Reading and writing the configuration file is the caller's part;
//! here stand the data model and the verified mutations.

use vstd::prelude::*;
use vstd::string::*;
use crate::text::str_eq;

verus! {

/// One configured completion model.
#[derive(Debug)]
pub struct ModelConfig {
    pub id: String,
    pub name: String,
    pub provider: String,
    pub api_url: String,
    pub api_key: String,
    pub model_name: String,
}

/// The mathematical content of a [`ModelConfig`].
pub struct ModelConfigView {
    pub id: Seq<char>,
    pub name: Seq<char>,
    pub provider: Seq<char>,
    pub api_url: Seq<char>,
    pub api_key: Seq<char>,
    pub model_name: Seq<char>,
}

impl View for ModelConfig {
    type V = ModelConfigView;

    open spec fn view(&self) -> ModelConfigView {
        ModelConfigView {
            id: self.id@,
            name: self.name@,
            provider: self.provider@,
            api_url: self.api_url@,
            api_key: self.api_key@,
            model_name: self.model_name@,
        }
    }
}

/// The views of a model list.
pub open spec fn model_views(v: Seq<ModelConfig>) -> Seq<ModelConfigView> {
    v.map_values(|m: ModelConfig| m@)
}

/// The application configuration.
#[derive(Debug)]
pub struct AppConfig {
    pub storage_path: String,
    /// `light`, `dark` or `system`.
    pub theme: String,
    pub models: Vec<ModelConfig>,
    pub reading_model: String,
    pub analysis_model: String,
    pub solving_model: String,
    pub use_paddle_ocr: bool,
    pub mineru_installed: bool,
    pub paddle_ocr_url: String,
    pub paddle_ocr_token: String,
}

impl AppConfig {
    /// The configuration a fresh installation starts from: no models,
    /// the system theme, everything else empty.
    pub fn fresh() -> (r: AppConfig)
        ensures
            r.storage_path@ == Seq::<char>::empty(),
            r.theme@ == "system"@,
            r.models@.len() == 0,
            r.reading_model@ == Seq::<char>::empty(),
            r.analysis_model@ == Seq::<char>::empty(),
            r.solving_model@ == Seq::<char>::empty(),
            !r.use_paddle_ocr,
            !r.mineru_installed,
            r.paddle_ocr_url@ == Seq::<char>::empty(),
            r.paddle_ocr_token@ == Seq::<char>::empty(),
    {
        AppConfig {
            storage_path: String::new(),
            theme: "system".to_owned(),
            models: Vec::new(),
            reading_model: String::new(),
            analysis_model: String::new(),
            solving_model: String::new(),
            use_paddle_ocr: false,
            mineru_installed: false,
            paddle_ocr_url: String::new(),
            paddle_ocr_token: String::new(),
        }
    }

    /// Registers a model.
    pub fn add_model(&mut self, model: ModelConfig)
        ensures
            final(self).models@ == old(self).models@.push(model),
            final(self).storage_path == old(self).storage_path,
            final(self).theme == old(self).theme,
            final(self).reading_model == old(self).reading_model,
            final(self).analysis_model == old(self).analysis_model,
            final(self).solving_model == old(self).solving_model,
            final(self).use_paddle_ocr == old(self).use_paddle_ocr,
            final(self).mineru_installed == old(self).mineru_installed,
            final(self).paddle_ocr_url == old(self).paddle_ocr_url,
            final(self).paddle_ocr_token == old(self).paddle_ocr_token,
    {
        self.models.push(model);
    }

    /// Removes every model carrying `model_id`, keeping the order of
    /// the rest.
    pub fn remove_model(&mut self, model_id: &str)
        ensures
            model_views(final(self).models@) == retained_models(
                model_views(old(self).models@),
                model_id@,
            ),
            final(self).storage_path == old(self).storage_path,
            final(self).theme == old(self).theme,
            final(self).reading_model == old(self).reading_model,
            final(self).analysis_model == old(self).analysis_model,
            final(self).solving_model == old(self).solving_model,
            final(self).use_paddle_ocr == old(self).use_paddle_ocr,
            final(self).mineru_installed == old(self).mineru_installed,
            final(self).paddle_ocr_url == old(self).paddle_ocr_url,
            final(self).paddle_ocr_token == old(self).paddle_ocr_token,
    {
        let n = self.models.len();
        let mut kept: Vec<ModelConfig> = Vec::new();
        let mut i: usize = 0;
        let ghost all = model_views(self.models@);
        proof {
            assert(model_views(kept@) =~= retained_models(all.take(0), model_id@));
        }
        while i < n
            invariant
                0 <= i <= n,
                n == self.models@.len(),
                all == model_views(self.models@),
                model_views(kept@) == retained_models(all.take(i as int), model_id@),
            decreases n - i,
        {
            proof {
                assert(all.take(i + 1).drop_last() =~= all.take(i as int));
                assert(all.take(i + 1).last() == all[i as int]);
            }
            if !str_eq(self.models[i].id.as_str(), model_id) {
                let m = &self.models[i];
                kept.push(
                    ModelConfig {
                        id: m.id.clone(),
                        name: m.name.clone(),
                        provider: m.provider.clone(),
                        api_url: m.api_url.clone(),
                        api_key: m.api_key.clone(),
                        model_name: m.model_name.clone(),
                    },
                );
                proof {
                    assert(model_views(kept@) =~= model_views(kept@.drop_last()).push(
                        all[i as int],
                    ));
                }
            }
            i += 1;
        }
        proof {
            assert(all.take(n as int) =~= all);
        }
        self.models = kept;
    }
}

/// The models that survive removing `id`, in order.
pub open spec fn retained_models(v: Seq<ModelConfigView>, id: Seq<char>) -> Seq<ModelConfigView>
    decreases v.len(),
{
    if v.len() == 0 {
        Seq::empty()
    } else {
        let rest = retained_models(v.drop_last(), id);
        if v.last().id != id {
            rest.push(v.last())
        } else {
            rest
        }
    }
}

/// Index of the first model carrying `id`, if any.
pub open spec fn model_with_id(v: Seq<ModelConfigView>, id: Seq<char>) -> Option<int>
    decreases v.len(),
{
    if v.len() == 0 {
        None
    } else if v[0].id == id {
        Some(0)
    } else {
        match model_with_id(v.drop_first(), id) {
            None => None,
            Some(i) => Some(i + 1),
        }
    }
}

proof fn lemma_model_with_id(v: Seq<ModelConfigView>, id: Seq<char>)
    ensures
        match model_with_id(v, id) {
            Some(i) => 0 <= i < v.len() && v[i].id == id && forall|j: int|
                0 <= j < i ==> (#[trigger] v[j]).id != id,
            None => forall|j: int| 0 <= j < v.len() ==> (#[trigger] v[j]).id != id,
        },
    decreases v.len(),
{
    if v.len() > 0 && v[0].id != id {
        let rest = v.drop_first();
        lemma_model_with_id(rest, id);
        assert(forall|j: int| 0 <= j < rest.len() ==> #[trigger] rest[j] == v[j + 1]);
        match model_with_id(rest, id) {
            Some(i) => {
                assert(v[i + 1] == rest[i]);
                assert forall|j: int| 0 <= j < i + 1 implies (#[trigger] v[j]).id != id by {
                    if j > 0 {
                        assert(v[j] == rest[j - 1]);
                    }
                }
            },
            None => {
                assert forall|j: int| 0 <= j < v.len() implies (#[trigger] v[j]).id != id by {
                    if j > 0 {
                        assert(v[j] == rest[j - 1]);
                    }
                }
            },
        }
    }
}

/// The model the analysis pipeline uses: the one the `analysis_model`
/// setting names, or — when that names none — the first configured
/// model; none at all only with an empty model list.
pub fn get_analysis_model<'a>(config: &'a AppConfig) -> (r: Option<&'a ModelConfig>)
    ensures
        match model_with_id(model_views(config.models@), config.analysis_model@) {
            Some(i) => r matches Some(m) && m@ == model_views(config.models@)[i],
            None => if config.models@.len() > 0 {
                r matches Some(m) && m@ == model_views(config.models@)[0]
            } else {
                r is None
            },
        },
{
    let n = self_models_len(config);
    let mut i: usize = 0;
    proof {
        lemma_model_with_id(model_views(config.models@), config.analysis_model@);
    }
    while i < n
        invariant
            0 <= i <= n,
            n == config.models@.len(),
            forall|j: int|
                0 <= j < i ==> (#[trigger] model_views(config.models@)[j]).id
                    != config.analysis_model@,
        decreases n - i,
    {
        if str_eq(self_model_id(config, i), config.analysis_model.as_str()) {
            proof {
                lemma_model_with_id(model_views(config.models@), config.analysis_model@);
                assert(model_views(config.models@)[i as int].id == config.analysis_model@);
            }
            return Some(&config.models[i]);
        }
        i += 1;
    }
    if n > 0 {
        Some(&config.models[0])
    } else {
        None
    }
}

fn self_models_len(config: &AppConfig) -> (r: usize)
    ensures
        r == config.models@.len(),
{
    config.models.len()
}

fn self_model_id<'a>(config: &'a AppConfig, i: usize) -> (r: &'a str)
    requires
        i < config.models@.len(),
    ensures
        r@ == config.models@[i as int].id@,
{
    config.models[i].id.as_str()
}

} // verus!
