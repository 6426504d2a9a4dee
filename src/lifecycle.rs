use vstd::prelude::*;

use crate::config::{same_config, ConfigError, LinkConfig};

verus! {

/// What the owner of a link must do with its background context.
#[derive(Debug, Clone)]
pub enum LinkCommand {
    /// The running link already matches: leave it alone.
    Nothing,
    /// No link is running: start one with this configuration.
    Start(LinkConfig),
    /// Stop the running link and wait until its background context has exited.
    Stop,
    /// Stop the running link, wait until it has exited, then start one with
    /// this configuration.
    Restart(LinkConfig),
}

/// The state machine of one logical link: stopped, or running with the
/// configuration it was started with. `generation` counts the starts that
/// succeeded (saturating), so that a restart is visible as a new generation.
#[derive(Debug, Clone)]
pub struct LinkController {
    pub running: Option<LinkConfig>,
    pub generation: u64,
}

/// How the controller answers a request for the link to run with `desired`
/// (or to be stopped, for `None`). An invalid configuration is refused and
/// leaves the link as it was. Any start tears the old link down first, so the
/// link counts as stopped until the start is reported.
pub open spec fn request_step(c: LinkController, desired: Option<LinkConfig>) -> (
    LinkController,
    Result<LinkCommand, ConfigError>,
) {
    match desired {
        None => (
            LinkController { running: None, generation: c.generation },
            Ok(
                if c.running is Some {
                    LinkCommand::Stop
                } else {
                    LinkCommand::Nothing
                },
            ),
        ),
        Some(d) => if !d.is_valid() {
            (c, Err(d.error()))
        } else {
            match c.running {
                Some(r) => if same_config(r, d) {
                    (c, Ok(LinkCommand::Nothing))
                } else {
                    (
                        LinkController { running: None, generation: c.generation },
                        Ok(LinkCommand::Restart(d)),
                    )
                },
                None => (
                    LinkController { running: None, generation: c.generation },
                    Ok(LinkCommand::Start(d)),
                ),
            }
        },
    }
}

/// The controller after a start with `config` was carried out, successfully
/// (`ok`) or not.
pub open spec fn started_step(c: LinkController, config: LinkConfig, ok: bool) -> LinkController {
    if ok {
        LinkController {
            running: Some(config),
            generation: if c.generation < u64::MAX {
                (c.generation + 1) as u64
            } else {
                c.generation
            },
        }
    } else {
        LinkController { running: None, generation: c.generation }
    }
}

impl LinkController {
    /// A running link was started with a valid configuration.
    pub open spec fn wf(&self) -> bool {
        self.running matches Some(r) ==> r.is_valid()
    }

    /// No link running, no start yet.
    pub fn new() -> (r: LinkController)
        ensures
            r.wf(),
            r.running is None,
            r.generation == 0,
    {
        LinkController { running: None, generation: 0 }
    }

    /// Whether a link is running.
    pub fn is_running(&self) -> (r: bool)
        ensures
            r == self.running is Some,
    {
        self.running.is_some()
    }

    /// Asks for the link to run with `desired`, or to stop for `None`, and
    /// says what must be done to get there.
    pub fn request(&mut self, desired: Option<LinkConfig>) -> (r: Result<LinkCommand, ConfigError>)
        requires
            old(self).wf(),
        ensures
            final(self).wf(),
            (*final(self), r) == request_step(*old(self), desired),
    {
        match desired {
            None => {
                let was_running = self.running.is_some();
                self.running = None;
                if was_running {
                    Ok(LinkCommand::Stop)
                } else {
                    Ok(LinkCommand::Nothing)
                }
            },
            Some(d) => {
                match d.validate() {
                    Err(e) => Err(e),
                    Ok(()) => {
                        let same = match &self.running {
                            Some(r) => Some(*r == d),
                            None => None,
                        };
                        match same {
                            Some(true) => Ok(LinkCommand::Nothing),
                            Some(false) => {
                                self.running = None;
                                Ok(LinkCommand::Restart(d))
                            },
                            None => Ok(LinkCommand::Start(d)),
                        }
                    },
                }
            },
        }
    }

    /// Reports how a start with `config` ended: `ok` when the socket was made
    /// and the background context spawned.
    pub fn started(&mut self, config: LinkConfig, ok: bool)
        requires
            old(self).wf(),
            ok ==> config.is_valid(),
        ensures
            final(self).wf(),
            *final(self) == started_step(*old(self), config, ok),
    {
        if ok {
            if self.generation < u64::MAX {
                self.generation = self.generation + 1;
            }
            self.running = Some(config);
        } else {
            self.running = None;
        }
    }
}

/// Asking again for the configuration that is running changes nothing: no
/// command, the same configuration and the same generation.
pub proof fn lemma_reconfigure_same_is_noop(c: LinkController, desired: LinkConfig)
    requires
        c.wf(),
        c.running is Some,
        same_config(c.running->0, desired),
    ensures
        request_step(c, Some(desired)) == (c, Ok::<LinkCommand, ConfigError>(LinkCommand::Nothing)),
{
    let r = c.running->0;
    assert(r.is_valid() == desired.is_valid());
}

/// Stop after start: a stopped link asked to run with a valid configuration is
/// told to start it; once started, a stop request tells its owner to stop it
/// and leaves the link stopped.
pub proof fn lemma_start_then_stop(c: LinkController, config: LinkConfig)
    requires
        c.running is None,
        config.is_valid(),
    ensures
        ({
            let (c1, r1) = request_step(c, Some(config));
            let c2 = started_step(c1, config, true);
            let (c3, r3) = request_step(c2, None);
            &&& r1 == Ok::<LinkCommand, ConfigError>(LinkCommand::Start(config))
            &&& c2.running == Some(config)
            &&& r3 == Ok::<LinkCommand, ConfigError>(LinkCommand::Stop)
            &&& c3.running is None
        }),
{
}

} // verus!
