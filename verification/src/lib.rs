/*
 * teamdate - tracking team mates across timezones
 * Copyright (C) 2022  Alex Snaps <alex@wcgw.dev>
 *
 * This program is free software: you can redistribute it and/or modify
 * it under the terms of the GNU General Public License as published by
 * the Free Software Foundation, either version 3 of the License, or
 * (at your option) any later version.
 *
 * This program is distributed in the hope that it will be useful,
 * but WITHOUT ANY WARRANTY; without even the implied warranty of
 * MERCHANTABILITY or FITNESS FOR A PARTICULAR PURPOSE.  See the
 * GNU General Public License for more details.
 *
 * You should have received a copy of the GNU General Public License
 * along with this program.  If not, see <https://www.gnu.org/licenses/>.
 */

//! Who is where, and what time is it there: the members of a team, each pinned
//! to a time zone, seen at one instant and laid out as a boxed table.
//!
//! - [`config`] holds the teams and the settings that go with them.
//! - [`choice`] picks the team to show and the header to show it under.
//! - [`lines`] turns members into rows: a label, and the local time.
//! - [`order`] puts clock readings in order, for the rows that stand for zones.
//! - [`zone`] asks the time zone database.
//! - [`table`] and [`text`] lay the rows out in a box.

pub mod choice;
pub mod config;
pub mod lines;
pub mod order;
pub mod table;
pub mod text;
pub mod zone;
