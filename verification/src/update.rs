use vstd::prelude::*;
use crate::command::ShellCommand;
use crate::fetch::{CmdEvent, FetchAction, FetchStep, fetch_aur_data_spec, fetch_pkglist, fetch_pkgbase};
use crate::globals::{Globals, URL_PKG, URL_PKGBASE, FILENAME_PKG, FILENAME_PKGBASE};

verus! {

pub const STR: &'static str = "update-pkg-list";

/// What became of the last step of updating the AUR lists.
pub enum UpdateEvent {
    Start,
    /// What became of the download of the package list.
    PkgList(CmdEvent),
    /// What became of the download of the package base list.
    PkgBase(CmdEvent),
}

/// The next step of updating the AUR lists.
pub enum UpdateAction {
    RunPkgList(ShellCommand),
    RunPkgBase(ShellCommand),
    Done(Result<(), String>),
}

pub enum UpdateStep {
    RunPkgList((Seq<char>, Seq<Seq<char>>, Option<Seq<char>>, bool)),
    RunPkgBase((Seq<char>, Seq<Seq<char>>, Option<Seq<char>>, bool)),
    Done(Result<(), Seq<char>>),
}

impl View for UpdateAction {
    type V = UpdateStep;

    open spec fn view(&self) -> UpdateStep {
        match self {
            UpdateAction::RunPkgList(c) => UpdateStep::RunPkgList(c@),
            UpdateAction::RunPkgBase(c) => UpdateStep::RunPkgBase(c@),
            UpdateAction::Done(Ok(())) => UpdateStep::Done(Ok(())),
            UpdateAction::Done(Err(e)) => UpdateStep::Done(Err(e@)),
        }
    }
}

pub open spec fn base_step(g: Seq<char>, ev: CmdEvent) -> UpdateStep {
    match fetch_aur_data_spec(URL_PKGBASE@, g, FILENAME_PKGBASE@, ev) {
        FetchStep::Run(c) => UpdateStep::RunPkgBase(c),
        FetchStep::Done(r) => UpdateStep::Done(r),
    }
}

/// The step of `update-pkg-list` after `event`: no argument is taken; the package
/// list is downloaded, then the package base list; the first failure ends it.
pub open spec fn update_spec(g: Seq<char>, nargs: nat, event: UpdateEvent) -> UpdateStep {
    if nargs != 0 {
        UpdateStep::Done(Err("unexpected arguments"@))
    } else {
        match event {
            UpdateEvent::Start => match fetch_aur_data_spec(URL_PKG@, g, FILENAME_PKG@, CmdEvent::Start) {
                FetchStep::Run(c) => UpdateStep::RunPkgList(c),
                FetchStep::Done(r) => UpdateStep::Done(r),
            },
            UpdateEvent::PkgList(ev) => match fetch_aur_data_spec(URL_PKG@, g, FILENAME_PKG@, ev) {
                FetchStep::Run(c) => UpdateStep::RunPkgList(c),
                FetchStep::Done(Ok(())) => base_step(g, CmdEvent::Start),
                FetchStep::Done(Err(e)) => UpdateStep::Done(Err(e)),
            },
            UpdateEvent::PkgBase(ev) => base_step(g, ev),
        }
    }
}

fn base(g: &Globals, ev: CmdEvent) -> (a: UpdateAction)
    ensures
        a@ == base_step(g.cache_path@, ev),
{
    match fetch_pkgbase(g, ev) {
        FetchAction::Run(c) => UpdateAction::RunPkgBase(c),
        FetchAction::Done(r) => UpdateAction::Done(r),
    }
}

/// Downloads the AUR package list and package base list anew.
pub fn run(g: &Globals, args: &Vec<String>, event: UpdateEvent) -> (a: UpdateAction)
    ensures
        a@ == update_spec(g.cache_path@, args@.len(), event),
{
    if args.len() != 0 {
        return UpdateAction::Done(Err(String::from_str("unexpected arguments")));
    }
    match event {
        UpdateEvent::Start => match fetch_pkglist(g, CmdEvent::Start) {
            FetchAction::Run(c) => UpdateAction::RunPkgList(c),
            FetchAction::Done(r) => UpdateAction::Done(r),
        },
        UpdateEvent::PkgList(ev) => match fetch_pkglist(g, ev) {
            FetchAction::Run(c) => UpdateAction::RunPkgList(c),
            FetchAction::Done(Ok(())) => base(g, CmdEvent::Start),
            FetchAction::Done(Err(e)) => UpdateAction::Done(Err(e)),
        },
        UpdateEvent::PkgBase(ev) => base(g, ev),
    }
}

} // verus!
